//! Text handling over `Seq<char>`: the pieces of `str`'s API that the parsers
//! here lean on (trimming, splitting, searching), each stated as a spec
//! function and implemented over character vectors.
use vstd::prelude::*;

verus! {

// ---- Whitespace and trimming --------------------------------------------

/// The Unicode `White_Space` property, which is what `char::is_whitespace`,
/// `str::trim` and `str::split_whitespace` test against.
pub open spec fn is_ws(c: char) -> bool {
    let n = c as u32;
    ||| (0x9 <= n && n <= 0xd)
    ||| n == 0x20
    ||| n == 0x85
    ||| n == 0xa0
    ||| n == 0x1680
    ||| (0x2000 <= n && n <= 0x200a)
    ||| n == 0x2028
    ||| n == 0x2029
    ||| n == 0x202f
    ||| n == 0x205f
    ||| n == 0x3000
}

pub fn is_whitespace(c: char) -> (r: bool)
    ensures
        r == is_ws(c),
{
    let n = c as u32;
    (0x9 <= n && n <= 0xd) || n == 0x20 || n == 0x85 || n == 0xa0 || n == 0x1680 || (0x2000 <= n
        && n <= 0x200a) || n == 0x2028 || n == 0x2029 || n == 0x202f || n == 0x205f || n == 0x3000
}

/// Leading whitespace removed.
pub open spec fn trim_start(s: Seq<char>) -> Seq<char>
    decreases s.len(),
{
    if s.len() > 0 && is_ws(s[0]) {
        trim_start(s.drop_first())
    } else {
        s
    }
}

/// Trailing whitespace removed.
pub open spec fn trim_end(s: Seq<char>) -> Seq<char>
    decreases s.len(),
{
    if s.len() > 0 && is_ws(s.last()) {
        trim_end(s.drop_last())
    } else {
        s
    }
}

/// What `str::trim` returns.
pub open spec fn trim(s: Seq<char>) -> Seq<char> {
    trim_end(trim_start(s))
}

proof fn lemma_trim_start_skip(s: Seq<char>, k: int)
    requires
        0 <= k <= s.len(),
        forall|i: int| 0 <= i < k ==> is_ws(#[trigger] s[i]),
    ensures
        trim_start(s) == trim_start(s.skip(k)),
    decreases k,
{
    if k == 0 {
        assert(s.skip(0) =~= s);
    } else {
        let t = s.drop_first();
        assert forall|i: int| 0 <= i < k - 1 implies is_ws(#[trigger] t[i]) by {
            assert(t[i] == s[i + 1]);
        }
        lemma_trim_start_skip(t, k - 1);
        assert(t.skip(k - 1) =~= s.skip(k));
    }
}

proof fn lemma_trim_end_take(s: Seq<char>, k: int)
    requires
        0 <= k <= s.len(),
        forall|i: int| k <= i < s.len() ==> is_ws(#[trigger] s[i]),
    ensures
        trim_end(s) == trim_end(s.take(k)),
    decreases s.len() - k,
{
    if k == s.len() {
        assert(s.take(k) =~= s);
    } else {
        let t = s.drop_last();
        assert forall|i: int| k <= i < t.len() implies is_ws(#[trigger] t[i]) by {
            assert(t[i] == s[i]);
        }
        lemma_trim_end_take(t, k);
        assert(t.take(k) =~= s.take(k));
    }
}

/// Copy of `s[lo..hi]`.
pub fn slice_chars(s: &[char], lo: usize, hi: usize) -> (r: Vec<char>)
    requires
        lo <= hi <= s@.len(),
    ensures
        r@ == s@.subrange(lo as int, hi as int),
{
    let mut out: Vec<char> = Vec::new();
    let mut i = lo;
    while i < hi
        invariant
            lo <= i <= hi,
            hi <= s@.len(),
            out@ == s@.subrange(lo as int, i as int),
        decreases hi - i,
    {
        out.push(s[i]);
        i += 1;
        assert(out@ =~= s@.subrange(lo as int, i as int));
    }
    out
}

/// `str::trim` over characters.
pub fn trim_chars(s: &[char]) -> (r: Vec<char>)
    ensures
        r@ == trim(s@),
{
    let n = s.len();
    let mut lo: usize = 0;
    while lo < n && is_whitespace(s[lo])
        invariant
            lo <= n,
            n == s@.len(),
            forall|i: int| 0 <= i < lo ==> is_ws(#[trigger] s@[i]),
        decreases n - lo,
    {
        lo += 1;
    }
    proof {
        lemma_trim_start_skip(s@, lo as int);
        assert(trim_start(s@.skip(lo as int)) == s@.skip(lo as int));
    }
    let mut hi: usize = n;
    while hi > lo && is_whitespace(s[hi - 1])
        invariant
            lo <= hi <= n,
            n == s@.len(),
            forall|i: int| hi <= i < n ==> is_ws(#[trigger] s@[i]),
        decreases hi,
    {
        hi -= 1;
    }
    proof {
        let t = s@.skip(lo as int);
        assert forall|i: int| hi - lo <= i < t.len() implies is_ws(#[trigger] t[i]) by {
            assert(t[i] == s@[i + lo]);
        }
        lemma_trim_end_take(t, hi - lo);
        assert(t.take(hi - lo) =~= s@.subrange(lo as int, hi as int));
        let u = s@.subrange(lo as int, hi as int);
        if u.len() > 0 {
            assert(u.last() == s@[hi - 1]);
        }
    }
    slice_chars(s, lo, hi)
}

// ---- Splitting -----------------------------------------------------------

/// The contents of a list of character vectors.
pub open spec fn views(v: Seq<Vec<char>>) -> Seq<Seq<char>> {
    Seq::new(v.len(), |i: int| v[i]@)
}

/// What `str::split` with a single-character separator yields: one more
/// piece than there are separators.
pub open spec fn split(s: Seq<char>, sep: char) -> Seq<Seq<char>>
    decreases s.len(),
{
    if s.len() == 0 {
        seq![Seq::<char>::empty()]
    } else {
        let prev = split(s.drop_last(), sep);
        if s.last() == sep {
            prev.push(Seq::<char>::empty())
        } else {
            prev.update(prev.len() - 1, prev.last().push(s.last()))
        }
    }
}

pub proof fn lemma_split_len(s: Seq<char>, sep: char)
    ensures
        split(s, sep).len() >= 1,
    decreases s.len(),
{
    if s.len() > 0 {
        lemma_split_len(s.drop_last(), sep);
    }
}

/// Text without the separator splits into one piece: itself.
pub proof fn lemma_split_without_sep(s: Seq<char>, sep: char)
    requires
        forall|i: int| 0 <= i < s.len() ==> #[trigger] s[i] != sep,
    ensures
        split(s, sep) == seq![s],
    decreases s.len(),
{
    if s.len() == 0 {
        assert(s =~= Seq::<char>::empty());
    } else {
        let t = s.drop_last();
        assert forall|i: int| 0 <= i < t.len() implies #[trigger] t[i] != sep by {
            assert(t[i] == s[i]);
        }
        lemma_split_without_sep(t, sep);
        assert(s[s.len() - 1] != sep);
        assert(t.push(s.last()) =~= s);
        assert(seq![t].update(0, t.push(s.last())) =~= seq![s]);
    }
}

/// Text that neither starts nor ends with whitespace trims to itself.
pub proof fn lemma_trim_unchanged(s: Seq<char>)
    requires
        s.len() > 0,
        !is_ws(s[0]),
        !is_ws(s[s.len() - 1]),
    ensures
        trim(s) == s,
{
    assert(trim_start(s) == s);
    assert(s.last() == s[s.len() - 1]);
}

/// `str::split(sep)`, collected.
pub fn split_chars(s: &[char], sep: char) -> (r: Vec<Vec<char>>)
    ensures
        views(r@) == split(s@, sep),
{
    let mut pieces: Vec<Vec<char>> = Vec::new();
    let mut cur: Vec<char> = Vec::new();
    let n = s.len();
    let mut i: usize = 0;
    assert(s@.take(0) =~= Seq::<char>::empty());
    assert(views(pieces@).push(cur@) =~= seq![Seq::<char>::empty()]);
    while i < n
        invariant
            i <= n,
            n == s@.len(),
            views(pieces@).push(cur@) == split(s@.take(i as int), sep),
        decreases n - i,
    {
        let c = s[i];
        let ghost before = views(pieces@);
        assert(s@.take(i + 1).drop_last() =~= s@.take(i as int));
        if c == sep {
            pieces.push(cur);
            cur = Vec::new();
            assert(views(pieces@) =~= before.push(split(s@.take(i as int), sep).last()));
            assert(views(pieces@).push(cur@) =~= split(s@.take(i + 1), sep));
        } else {
            cur.push(c);
            assert(views(pieces@) =~= before);
            assert(views(pieces@).push(cur@) =~= split(s@.take(i + 1), sep));
        }
        i += 1;
    }
    assert(s@.take(n as int) =~= s@);
    let ghost before = views(pieces@);
    pieces.push(cur);
    assert(views(pieces@) =~= before.push(cur@));
    pieces
}

pub open spec fn strip_cr(l: Seq<char>) -> Seq<char> {
    if l.len() > 0 && l.last() == '\r' {
        l.drop_last()
    } else {
        l
    }
}

/// What `str::lines` yields: pieces between `\n`, each losing a `\r` that
/// stood before its `\n`, and no empty piece after a final `\n`.
pub open spec fn lines(s: Seq<char>) -> Seq<Seq<char>> {
    let p = split(s, '\n');
    let init = Seq::new((p.len() - 1) as nat, |i: int| strip_cr(p[i]));
    if p.last().len() == 0 {
        init
    } else {
        init.push(p.last())
    }
}

/// `str::lines`, collected.
pub fn lines_of(s: &[char]) -> (r: Vec<Vec<char>>)
    ensures
        views(r@) == lines(s@),
{
    let p = split_chars(s, '\n');
    proof {
        lemma_split_len(s@, '\n');
    }
    let ghost pv = split(s@, '\n');
    let mut out: Vec<Vec<char>> = Vec::new();
    let m = p.len() - 1;
    let mut i: usize = 0;
    while i < m
        invariant
            i <= m,
            m + 1 == p.len(),
            views(p@) == pv,
            views(out@) =~= Seq::new(i as nat, |k: int| strip_cr(pv[k])),
        decreases m - i,
    {
        let piece = &p[i];
        assert(piece@ == pv[i as int]);
        let k = piece.len();
        let ghost before = views(out@);
        if k > 0 && piece[k - 1] == '\r' {
            let l = slice_chars(piece.as_slice(), 0, k - 1);
            assert(l@ =~= strip_cr(pv[i as int]));
            out.push(l);
        } else {
            let l = slice_chars(piece.as_slice(), 0, k);
            assert(l@ =~= strip_cr(pv[i as int]));
            out.push(l);
        }
        assert(views(out@) =~= before.push(strip_cr(pv[i as int])));
        i += 1;
    }
    let last = &p[m];
    assert(last@ == pv.last());
    if last.len() > 0 {
        let ghost before = views(out@);
        let l = slice_chars(last.as_slice(), 0, last.len());
        assert(l@ =~= last@);
        out.push(l);
        assert(views(out@) =~= before.push(pv.last()));
    }
    out
}

/// What `str::split_whitespace` yields: the maximal runs of non-whitespace.
pub open spec fn words(s: Seq<char>) -> Seq<Seq<char>>
    decreases s.len(),
{
    if s.len() == 0 {
        seq![]
    } else {
        let prev = words(s.drop_last());
        let c = s.last();
        if is_ws(c) {
            prev
        } else if s.len() >= 2 && !is_ws(s[s.len() - 2]) {
            prev.update(prev.len() - 1, prev.last().push(c))
        } else {
            prev.push(seq![c])
        }
    }
}

proof fn lemma_words_nonempty(s: Seq<char>)
    requires
        s.len() > 0,
        !is_ws(s.last()),
    ensures
        words(s).len() > 0,
    decreases s.len(),
{
    if s.len() >= 2 && !is_ws(s[s.len() - 2]) {
        let t = s.drop_last();
        assert(t.last() == s[s.len() - 2]);
        lemma_words_nonempty(t);
    }
}

/// Splitting a concatenation whose left part ends in whitespace splits
/// each side on its own.
pub proof fn lemma_words_append(a: Seq<char>, b: Seq<char>)
    requires
        a.len() > 0,
        is_ws(a.last()),
    ensures
        words(a + b) == words(a) + words(b),
    decreases b.len(),
{
    if b.len() == 0 {
        assert(a + b =~= a);
        assert(words(a) + words(b) =~= words(a));
    } else {
        let ab = a + b;
        let c = b.last();
        assert(ab.drop_last() =~= a + b.drop_last());
        assert(ab.last() == c);
        lemma_words_append(a, b.drop_last());
        let prev = words(a + b.drop_last());
        if is_ws(c) {
        } else if b.len() >= 2 && !is_ws(b[b.len() - 2]) {
            assert(ab[ab.len() - 2] == b[b.len() - 2]);
            let t = b.drop_last();
            assert(t.last() == b[b.len() - 2]);
            lemma_words_nonempty(t);
            let wb = words(t);
            assert(prev == words(a) + wb);
            assert(prev.update(prev.len() - 1, prev.last().push(c)) =~= words(a) + wb.update(
                wb.len() - 1,
                wb.last().push(c),
            ));
        } else {
            if b.len() == 1 {
                assert(ab[ab.len() - 2] == a.last());
                assert(b.drop_last() =~= Seq::<char>::empty());
            } else {
                assert(ab[ab.len() - 2] == b[b.len() - 2]);
            }
            assert(prev.push(seq![c]) =~= words(a) + words(b.drop_last()).push(seq![c]));
        }
    }
}

/// A run of characters with no whitespace in it is one word.
pub proof fn lemma_words_single(x: Seq<char>)
    requires
        x.len() > 0,
        forall|i: int| 0 <= i < x.len() ==> !is_ws(#[trigger] x[i]),
    ensures
        words(x) == seq![x],
    decreases x.len(),
{
    assert(!is_ws(x[x.len() - 1]));
    if x.len() == 1 {
        assert(x.drop_last() =~= Seq::<char>::empty());
        assert(words(x.drop_last()) == Seq::<Seq<char>>::empty());
        assert(seq![x.last()] =~= x);
    } else {
        let t = x.drop_last();
        assert forall|i: int| 0 <= i < t.len() implies !is_ws(#[trigger] t[i]) by {
            assert(t[i] == x[i]);
        }
        lemma_words_single(t);
        assert(!is_ws(x[x.len() - 2]));
        assert(t.push(x.last()) =~= x);
        assert(seq![t].update(0, t.push(x.last())) =~= seq![x]);
    }
}

/// Words joined by spaces split back into the same words, when none is
/// empty or holds whitespace.
pub proof fn lemma_words_join(xs: Seq<Seq<char>>)
    requires
        forall|k: int| 0 <= k < xs.len() ==> (#[trigger] xs[k]).len() > 0,
        forall|k: int, i: int| 0 <= k < xs.len() && 0 <= i < xs[k].len() ==> !is_ws(#[trigger] xs[k][i]),
    ensures
        words(join(xs, " "@)) == xs,
    decreases xs.len(),
{
    reveal_strlit(" ");
    if xs.len() == 0 {
    } else if xs.len() == 1 {
        lemma_words_single(xs[0]);
        assert(seq![xs[0]] =~= xs);
    } else {
        let init = xs.drop_last();
        let y = xs.last();
        assert forall|k: int| 0 <= k < init.len() implies (#[trigger] init[k]).len() > 0 by {
            assert(init[k] == xs[k]);
        }
        assert forall|k: int, i: int| 0 <= k < init.len() && 0 <= i < init[k].len() implies !is_ws(
            #[trigger] init[k][i],
        ) by {
            assert(init[k] == xs[k]);
        }
        lemma_words_join(init);
        assert forall|i: int| 0 <= i < y.len() implies !is_ws(#[trigger] y[i]) by {
            assert(y == xs[xs.len() - 1]);
        }
        lemma_words_single(y);
        let a = join(init, " "@) + " "@;
        assert(a.last() == ' ');
        assert(is_ws(' '));
        lemma_words_append(a, y);
        assert(a.drop_last() =~= join(init, " "@));
        assert(words(a) == words(join(init, " "@)));
        assert(join(xs, " "@) == a + y);
        assert(init.push(y) =~= xs);
    }
}

/// `str::split_whitespace`, collected.
pub fn words_of(s: &[char]) -> (r: Vec<Vec<char>>)
    ensures
        views(r@) == words(s@),
{
    let mut out: Vec<Vec<char>> = Vec::new();
    let mut cur: Vec<char> = Vec::new();
    let mut in_word = false;
    let n = s.len();
    let mut i: usize = 0;
    assert(s@.take(0) =~= Seq::<char>::empty());
    while i < n
        invariant
            i <= n,
            n == s@.len(),
            in_word ==> i > 0 && !is_ws(s@[i - 1]) && cur@.len() > 0 && views(out@).push(
                cur@,
            ) == words(s@.take(i as int)),
            !in_word ==> (i == 0 || is_ws(s@[i - 1])) && views(out@) == words(
                s@.take(i as int),
            ),
        decreases n - i,
    {
        let c = s[i];
        let ghost t = s@.take(i + 1);
        assert(t.drop_last() =~= s@.take(i as int));
        assert(t.last() == c);
        if is_whitespace(c) {
            if in_word {
                let ghost before = views(out@);
                out.push(cur);
                cur = Vec::new();
                assert(views(out@) =~= before.push(words(s@.take(i as int)).last()));
                assert(views(out@) =~= words(s@.take(i as int)));
            }
            in_word = false;
        } else {
            if in_word {
                assert(t[t.len() - 2] == s@[i - 1]);
                let ghost before = views(out@);
                cur.push(c);
                assert(views(out@).push(cur@) =~= words(t));
            } else {
                if i > 0 {
                    assert(t[t.len() - 2] == s@[i - 1]);
                }
                cur = Vec::new();
                cur.push(c);
                assert(views(out@).push(cur@) =~= words(t));
            }
            in_word = true;
        }
        i += 1;
    }
    assert(s@.take(n as int) =~= s@);
    if in_word {
        let ghost before = views(out@);
        out.push(cur);
        assert(views(out@) =~= before.push(cur@));
    }
    out
}

// ---- Searching -----------------------------------------------------------

/// `p` occurs in `s` starting at `i`.
pub open spec fn matches_at(s: Seq<char>, p: Seq<char>, i: int) -> bool {
    0 <= i && i + p.len() <= s.len() && s.subrange(i, i + p.len()) == p
}

/// `str::contains` with a string pattern.
pub open spec fn contains(s: Seq<char>, p: Seq<char>) -> bool {
    exists|i: int| matches_at(s, p, i)
}

pub open spec fn starts_with(s: Seq<char>, p: Seq<char>) -> bool {
    matches_at(s, p, 0)
}

pub open spec fn ends_with(s: Seq<char>, p: Seq<char>) -> bool {
    matches_at(s, p, s.len() - p.len())
}

/// `p` occurs at `i` and nowhere before it.
pub open spec fn is_first_match(s: Seq<char>, p: Seq<char>, i: int) -> bool {
    matches_at(s, p, i) && forall|j: int| 0 <= j < i ==> !#[trigger] matches_at(s, p, j)
}

/// `p` occurs at `i` and nowhere after it.
pub open spec fn is_last_match(s: Seq<char>, p: Seq<char>, i: int) -> bool {
    matches_at(s, p, i) && forall|j: int| i < j ==> !#[trigger] matches_at(s, p, j)
}

/// Where `str::find` finds `p` (counted in characters).
pub open spec fn first_match(s: Seq<char>, p: Seq<char>) -> Option<int> {
    if exists|i: int| is_first_match(s, p, i) {
        Some(choose|i: int| is_first_match(s, p, i))
    } else {
        None
    }
}

/// Where `str::rfind` finds `p` (counted in characters).
pub open spec fn last_match(s: Seq<char>, p: Seq<char>) -> Option<int> {
    if exists|i: int| is_last_match(s, p, i) {
        Some(choose|i: int| is_last_match(s, p, i))
    } else {
        None
    }
}

pub proof fn lemma_first_match_is(s: Seq<char>, p: Seq<char>, i: int)
    requires
        is_first_match(s, p, i),
    ensures
        first_match(s, p) == Some(i),
{
    let k = choose|k: int| is_first_match(s, p, k);
    assert(is_first_match(s, p, k));
    if k < i {
        assert(!matches_at(s, p, k));
    } else if i < k {
        assert(!matches_at(s, p, i));
    }
}

pub proof fn lemma_last_match_is(s: Seq<char>, p: Seq<char>, i: int)
    requires
        is_last_match(s, p, i),
    ensures
        last_match(s, p) == Some(i),
{
    let k = choose|k: int| is_last_match(s, p, k);
    assert(is_last_match(s, p, k));
    if k < i {
        assert(!matches_at(s, p, i));
    } else if i < k {
        assert(!matches_at(s, p, k));
    }
}

pub fn matches_at_exec(s: &[char], p: &[char], i: usize) -> (r: bool)
    ensures
        r == matches_at(s@, p@, i as int),
{
    if i > s.len() || p.len() > s.len() - i {
        return false;
    }
    let mut k: usize = 0;
    while k < p.len()
        invariant
            k <= p@.len(),
            i + p@.len() <= s.len(),
            s@.subrange(i as int, i + k) == p@.take(k as int),
        decreases p@.len() - k,
    {
        if s[i + k] != p[k] {
            assert(s@.subrange(i as int, i + p@.len())[k as int] == s@[i + k]);
            return false;
        }
        k += 1;
        assert(s@.subrange(i as int, i + k) =~= p@.take(k as int));
    }
    assert(p@.take(k as int) =~= p@);
    true
}

/// First index at which `p` occurs, as `str::find` gives it (in characters).
pub fn find_chars(s: &[char], p: &[char]) -> (r: Option<usize>)
    ensures
        match r {
            Some(i) => matches_at(s@, p@, i as int) && forall|j: int|
                0 <= j < i ==> !#[trigger] matches_at(s@, p@, j),
            None => forall|j: int| !#[trigger] matches_at(s@, p@, j),
        },
        match r {
            Some(i) => first_match(s@, p@) == Some(i as int),
            None => first_match(s@, p@) is None,
        },
{
    let r = find_chars_raw(s, p);
    proof {
        match r {
            Some(i) => lemma_first_match_is(s@, p@, i as int),
            None => {
                assert(!exists|i: int| is_first_match(s@, p@, i));
            },
        }
    }
    r
}

fn find_chars_raw(s: &[char], p: &[char]) -> (r: Option<usize>)
    ensures
        match r {
            Some(i) => matches_at(s@, p@, i as int) && forall|j: int|
                0 <= j < i ==> !#[trigger] matches_at(s@, p@, j),
            None => forall|j: int| !#[trigger] matches_at(s@, p@, j),
        },
{
    if p.len() == 0 {
        assert(s@.subrange(0, 0) =~= p@);
        return Some(0);
    }
    if p.len() > s.len() {
        return None;
    }
    let last = s.len() - p.len();
    let mut i: usize = 0;
    while i <= last
        invariant
            last + p@.len() == s.len(),
            p@.len() > 0,
            i <= last + 1,
            forall|j: int| 0 <= j < i ==> !#[trigger] matches_at(s@, p@, j),
        decreases last + 1 - i,
    {
        if matches_at_exec(s, p, i) {
            return Some(i);
        }
        i += 1;
    }
    None
}

/// Last index at which `p` occurs, as `str::rfind` gives it (in characters).
pub fn rfind_chars(s: &[char], p: &[char]) -> (r: Option<usize>)
    ensures
        match r {
            Some(i) => matches_at(s@, p@, i as int) && forall|j: int|
                i < j ==> !#[trigger] matches_at(s@, p@, j),
            None => forall|j: int| !#[trigger] matches_at(s@, p@, j),
        },
        match r {
            Some(i) => last_match(s@, p@) == Some(i as int),
            None => last_match(s@, p@) is None,
        },
{
    let r = rfind_chars_raw(s, p);
    proof {
        match r {
            Some(i) => lemma_last_match_is(s@, p@, i as int),
            None => {
                assert(!exists|i: int| is_last_match(s@, p@, i));
            },
        }
    }
    r
}

fn rfind_chars_raw(s: &[char], p: &[char]) -> (r: Option<usize>)
    ensures
        match r {
            Some(i) => matches_at(s@, p@, i as int) && forall|j: int|
                i < j ==> !#[trigger] matches_at(s@, p@, j),
            None => forall|j: int| !#[trigger] matches_at(s@, p@, j),
        },
{
    if p.len() == 0 {
        assert(s@.subrange(s@.len() as int, s@.len() as int) =~= p@);
        return Some(s.len());
    }
    if p.len() > s.len() {
        return None;
    }
    let mut i: usize = s.len() - p.len() + 1;
    while i > 0
        invariant
            i <= s@.len() - p@.len() + 1,
            p@.len() <= s@.len(),
            forall|j: int| i <= j ==> !#[trigger] matches_at(s@, p@, j),
        decreases i,
    {
        if matches_at_exec(s, p, i - 1) {
            return Some(i - 1);
        }
        i -= 1;
    }
    None
}

pub fn contains_chars(s: &[char], p: &[char]) -> (r: bool)
    ensures
        r == contains(s@, p@),
{
    match find_chars(s, p) {
        Some(i) => true,
        None => false,
    }
}

pub fn starts_with_chars(s: &[char], p: &[char]) -> (r: bool)
    ensures
        r == starts_with(s@, p@),
{
    matches_at_exec(s, p, 0)
}

pub fn ends_with_chars(s: &[char], p: &[char]) -> (r: bool)
    ensures
        r == ends_with(s@, p@),
{
    if p.len() > s.len() {
        false
    } else {
        matches_at_exec(s, p, s.len() - p.len())
    }
}

/// What `str::replace(f, t)` returns for a non-empty pattern `f`: each
/// occurrence, taken left to right without overlap, replaced by `t`.
pub open spec fn replace_all(s: Seq<char>, f: Seq<char>, t: Seq<char>) -> Seq<char>
    decreases s.len(),
{
    if f.len() == 0 {
        s
    } else {
        match first_match(s, f) {
            None => s,
            Some(i) => {
                if 0 <= i && i + f.len() <= s.len() {
                    s.take(i) + t + replace_all(s.skip(i + f.len()), f, t)
                } else {
                    s
                }
            },
        }
    }
}

/// `str::replace` for a non-empty pattern.
pub fn replace_chars(s: &[char], f: &[char], t: &[char]) -> (r: Vec<char>)
    requires
        f@.len() > 0,
    ensures
        r@ == replace_all(s@, f@, t@),
    decreases s@.len(),
{
    match find_chars(s, f) {
        None => slice_chars(s, 0, s.len()),
        Some(i) => {
            assert(i + f@.len() <= s@.len());
            assert(s@.len() == s.len());
            let rest = slice_chars(s, i + f.len(), s.len());
            let tail = replace_chars(rest.as_slice(), f, t);
            let head = slice_chars(s, 0, i);
            let r = concat(concat(head.as_slice(), t).as_slice(), tail.as_slice());
            assert(rest@ =~= s@.skip(i + f@.len()));
            assert(head@ =~= s@.take(i as int));
            r
        },
    }
}

/// Leading and trailing copies of `c` removed, as `str::trim_matches(c)`.
pub open spec fn trim_char(s: Seq<char>, c: char) -> Seq<char> {
    trim_end_char(trim_start_char(s, c), c)
}

pub open spec fn trim_start_char(s: Seq<char>, c: char) -> Seq<char>
    decreases s.len(),
{
    if s.len() > 0 && s[0] == c {
        trim_start_char(s.drop_first(), c)
    } else {
        s
    }
}

pub open spec fn trim_end_char(s: Seq<char>, c: char) -> Seq<char>
    decreases s.len(),
{
    if s.len() > 0 && s.last() == c {
        trim_end_char(s.drop_last(), c)
    } else {
        s
    }
}

pub fn trim_char_exec(s: &[char], c: char) -> (r: Vec<char>)
    ensures
        r@ == trim_char(s@, c),
{
    let mut cur = slice_chars(s, 0, s.len());
    assert(cur@ =~= s@);
    // strip from the front
    let mut lo: usize = 0;
    while lo < cur.len() && cur[lo] == c
        invariant
            lo <= cur@.len(),
            cur@ == s@,
            trim_start_char(s@, c) == trim_start_char(s@.skip(lo as int), c),
        decreases cur@.len() - lo,
    {
        assert(s@.skip(lo as int).drop_first() =~= s@.skip(lo + 1));
        lo += 1;
    }
    let front = slice_chars(s, lo, s.len());
    assert(front@ =~= s@.skip(lo as int));
    let mut hi: usize = front.len();
    assert(front@.take(hi as int) =~= front@);
    while hi > 0 && front[hi - 1] == c
        invariant
            hi <= front@.len(),
            trim_end_char(front@, c) == trim_end_char(front@.take(hi as int), c),
        decreases hi,
    {
        assert(front@.take(hi as int).drop_last() =~= front@.take(hi - 1));
        hi -= 1;
    }
    let r = slice_chars(front.as_slice(), 0, hi);
    assert(r@ =~= front@.take(hi as int));
    r
}

/// The pieces of `xs` with `sep` between each pair, as `[..].join(sep)`.
pub open spec fn join(xs: Seq<Seq<char>>, sep: Seq<char>) -> Seq<char>
    decreases xs.len(),
{
    if xs.len() == 0 {
        Seq::<char>::empty()
    } else if xs.len() == 1 {
        xs[0]
    } else {
        join(xs.drop_last(), sep) + sep + xs.last()
    }
}

pub fn join_chars(xs: &Vec<Vec<char>>, sep: &[char]) -> (r: Vec<char>)
    ensures
        r@ == join(views(xs@), sep@),
{
    let mut out: Vec<char> = Vec::new();
    let mut i: usize = 0;
    while i < xs.len()
        invariant
            i <= xs.len(),
            out@ == join(views(xs@).take(i as int), sep@),
        decreases xs.len() - i,
    {
        let ghost pre = views(xs@).take(i as int);
        let ghost now = views(xs@).take(i + 1);
        assert(now.drop_last() =~= pre);
        assert(now.last() == xs[i as int]@);
        if i == 0 {
            out = slice_chars(xs[i].as_slice(), 0, xs[i].len());
            assert(out@ =~= xs[0]@);
        } else {
            let with_sep = concat(out.as_slice(), sep);
            out = concat(with_sep.as_slice(), xs[i].as_slice());
        }
        i += 1;
    }
    assert(views(xs@).take(xs.len() as int) =~= views(xs@));
    out
}

/// `trim` applied to each piece.
pub open spec fn trim_each(xs: Seq<Seq<char>>) -> Seq<Seq<char>> {
    Seq::new(xs.len(), |i: int| trim(xs[i]))
}

pub fn trim_each_exec(xs: &Vec<Vec<char>>) -> (r: Vec<Vec<char>>)
    ensures
        views(r@) == trim_each(views(xs@)),
{
    let mut out: Vec<Vec<char>> = Vec::new();
    let mut i: usize = 0;
    while i < xs.len()
        invariant
            i <= xs.len(),
            views(out@) =~= trim_each(views(xs@)).take(i as int),
        decreases xs.len() - i,
    {
        let t = trim_chars(xs[i].as_slice());
        let ghost before = out@;
        out.push(t);
        assert(views(out@) =~= views(before).push(trim(xs[i as int]@)));
        i += 1;
    }
    out
}

// ---- Conversions ---------------------------------------------------------

/// The characters of a string slice.
pub fn chars_of(s: &str) -> (r: Vec<char>)
    ensures
        r@ == s@,
{
    let mut out: Vec<char> = Vec::new();
    for c in it: s.chars()
        invariant
            out@ == it.seq().take(it.index() as int),
            it.seq() == s@,
    {
        out.push(c);
    }
    out
}

/// `String::push`. Claimed: the string afterwards holds its old characters
/// followed by `c`.
#[verifier::external_body]
pub(crate) fn push_char(s: &mut String, c: char)
    ensures
        final(s)@ == old(s)@.push(c),
{
    s.push(c);
}

/// A `String` holding exactly these characters.
pub fn string_of(v: &[char]) -> (r: String)
    ensures
        r@ == v@,
{
    let mut out = String::new();
    let mut i: usize = 0;
    while i < v.len()
        invariant
            i <= v@.len(),
            out@ == v@.take(i as int),
        decreases v@.len() - i,
    {
        push_char(&mut out, v[i]);
        i += 1;
        assert(out@ =~= v@.take(i as int));
    }
    assert(v@.take(v@.len() as int) =~= v@);
    out
}

/// Strings of a list of character vectors.
pub fn strings_of(v: &Vec<Vec<char>>) -> (r: Vec<String>)
    ensures
        r.len() == v.len(),
        forall|i: int| 0 <= i < v.len() ==> #[trigger] r[i]@ == v[i]@,
{
    let mut out: Vec<String> = Vec::new();
    let mut i: usize = 0;
    while i < v.len()
        invariant
            i <= v.len(),
            out.len() == i,
            forall|k: int| 0 <= k < i ==> #[trigger] out[k]@ == v[k]@,
        decreases v.len() - i,
    {
        out.push(string_of(v[i].as_slice()));
        i += 1;
    }
    out
}

/// `a` followed by `b`.
pub fn concat(a: &[char], b: &[char]) -> (r: Vec<char>)
    ensures
        r@ == a@ + b@,
{
    let mut out = slice_chars(a, 0, a.len());
    let mut i: usize = 0;
    while i < b.len()
        invariant
            i <= b@.len(),
            out@ == a@ + b@.take(i as int),
        decreases b@.len() - i,
    {
        out.push(b[i]);
        i += 1;
        assert(out@ =~= a@ + b@.take(i as int));
    }
    assert(b@.take(b@.len() as int) =~= b@);
    assert(a@.subrange(0, a@.len() as int) =~= a@);
    out
}

/// Equality of character sequences.
pub fn chars_eq(a: &[char], b: &[char]) -> (r: bool)
    ensures
        r == (a@ == b@),
{
    if a.len() != b.len() {
        return false;
    }
    let mut i: usize = 0;
    while i < a.len()
        invariant
            i <= a@.len(),
            a@.len() == b@.len(),
            forall|k: int| 0 <= k < i ==> a@[k] == b@[k],
        decreases a@.len() - i,
    {
        if a[i] != b[i] {
            return false;
        }
        i += 1;
    }
    assert(a@ =~= b@);
    true
}

pub fn str_eq(a: &str, b: &str) -> (r: bool)
    ensures
        r == (a@ == b@),
{
    let x = chars_of(a);
    let y = chars_of(b);
    chars_eq(x.as_slice(), y.as_slice())
}

} // verus!
