//! Character-level string operations: trimming, searching, splitting and
//! joining, each with a mathematical model over `Seq<char>`.
use vstd::prelude::*;

verus! {

/// Index of the first character at or after `i` that is not `c`
/// (or `s.len()` when there is none).
pub open spec fn skip_run(s: Seq<char>, c: char, i: int) -> int
    decreases s.len() - i,
{
    if 0 <= i < s.len() && s[i] == c {
        skip_run(s, c, i + 1)
    } else {
        i
    }
}

/// `s` without its leading run of `c`.
pub open spec fn trim_start(s: Seq<char>, c: char) -> Seq<char> {
    s.skip(skip_run(s, c, 0))
}

/// Index of the first `c` at or after `i`, if any.
pub open spec fn find_from(s: Seq<char>, c: char, i: int) -> Option<int>
    decreases s.len() - i,
{
    if 0 <= i < s.len() {
        if s[i] == c {
            Some(i)
        } else {
            find_from(s, c, i + 1)
        }
    } else {
        None
    }
}

/// Index of the first `c` in `s`, if any.
pub open spec fn find_char(s: Seq<char>, c: char) -> Option<int> {
    find_from(s, c, 0)
}

/// The pieces of `s` between occurrences of `c`, as `str::split` yields them:
/// an empty `s` gives one empty piece, and `k` separators give `k + 1` pieces.
pub open spec fn split_on(s: Seq<char>, c: char) -> Seq<Seq<char>>
    decreases s.len(),
{
    if s.len() == 0 {
        seq![Seq::<char>::empty()]
    } else {
        let r = split_on(s.drop_last(), c);
        if s.last() == c {
            r.push(Seq::<char>::empty())
        } else {
            r.update(r.len() - 1, r.last().push(s.last()))
        }
    }
}

/// The pieces `ps` written one after another with `sep` between neighbours.
pub open spec fn join_with(ps: Seq<Seq<char>>, sep: Seq<char>) -> Seq<char>
    decreases ps.len(),
{
    if ps.len() == 0 {
        Seq::<char>::empty()
    } else if ps.len() == 1 {
        ps[0]
    } else {
        join_with(ps.drop_last(), sep) + sep + ps.last()
    }
}

/// The views of a sequence of strings.
pub open spec fn views(v: Seq<String>) -> Seq<Seq<char>> {
    v.map_values(|x: String| x@)
}

/// The views of a list of string lists.
pub open spec fn nested_views(v: Seq<Vec<String>>) -> Seq<Seq<Seq<char>>> {
    v.map_values(|c: Vec<String>| views(c@))
}

proof fn lemma_find_from_bounds(s: Seq<char>, c: char, i: int)
    requires
        0 <= i,
    ensures
        match find_from(s, c, i) {
            Some(p) => i <= p < s.len() && s[p] == c && forall|j: int| i <= j < p ==> s[j] != c,
            None => forall|j: int| i <= j < s.len() ==> s[j] != c,
        },
    decreases s.len() - i,
{
    if i < s.len() && s[i] != c {
        lemma_find_from_bounds(s, c, i + 1);
    }
}

/// `find_char` gives the first occurrence, and `None` only when there is none.
pub proof fn lemma_find_char(s: Seq<char>, c: char)
    ensures
        match find_char(s, c) {
            Some(p) => 0 <= p < s.len() && s[p] == c && forall|j: int| 0 <= j < p ==> s[j] != c,
            None => forall|j: int| 0 <= j < s.len() ==> s[j] != c,
        },
{
    lemma_find_from_bounds(s, c, 0);
}

/// `split_on` always yields at least one piece.
pub proof fn lemma_split_nonempty(s: Seq<char>, c: char)
    ensures
        split_on(s, c).len() >= 1,
    decreases s.len(),
{
    if s.len() > 0 {
        lemma_split_nonempty(s.drop_last(), c);
    }
}

proof fn lemma_join_extend_last(ps: Seq<Seq<char>>, sep: Seq<char>, x: char)
    requires
        ps.len() >= 1,
    ensures
        join_with(ps.update(ps.len() - 1, ps.last().push(x)), sep) == join_with(ps, sep).push(x),
{
    let qs = ps.update(ps.len() - 1, ps.last().push(x));
    if ps.len() == 1 {
        assert(qs[0] == ps[0].push(x));
    } else {
        assert(qs.drop_last() =~= ps.drop_last());
        assert(qs.last() == ps.last().push(x));
        assert(join_with(qs, sep) == join_with(ps.drop_last(), sep) + sep + ps.last().push(x));
        assert(join_with(ps.drop_last(), sep) + sep + ps.last().push(x)
            =~= (join_with(ps.drop_last(), sep) + sep + ps.last()).push(x));
    }
}

/// Joining the pieces of a split with the separator gives back the string.
pub proof fn lemma_join_split(s: Seq<char>, c: char)
    ensures
        join_with(split_on(s, c), seq![c]) == s,
    decreases s.len(),
{
    if s.len() == 0 {
        assert(split_on(s, c) =~= seq![Seq::<char>::empty()]);
        assert(s =~= Seq::<char>::empty());
    } else {
        let t = s.drop_last();
        lemma_join_split(t, c);
        lemma_split_nonempty(t, c);
        let r = split_on(t, c);
        if s.last() == c {
            let q = r.push(Seq::<char>::empty());
            assert(q.drop_last() =~= r);
            assert(join_with(q, seq![c]) == join_with(r, seq![c]) + seq![c] + Seq::<char>::empty());
            assert(t + seq![c] + Seq::<char>::empty() =~= s);
        } else {
            lemma_join_extend_last(r, seq![c], s.last());
            assert(t.push(s.last()) =~= s);
        }
    }
}

/// No piece of a split holds the separator.
pub proof fn lemma_split_pieces_free_of_separator(s: Seq<char>, c: char)
    ensures
        forall|k: int, j: int|
            0 <= k < split_on(s, c).len() && 0 <= j < split_on(s, c)[k].len()
                ==> split_on(s, c)[k][j] != c,
    decreases s.len(),
{
    if s.len() > 0 {
        let t = s.drop_last();
        lemma_split_pieces_free_of_separator(t, c);
        lemma_split_nonempty(t, c);
        let r = split_on(t, c);
        if s.last() != c {
            let q = split_on(s, c);
            assert forall|k: int, j: int| 0 <= k < q.len() && 0 <= j < q[k].len() implies q[k][j] != c by {
                if k == r.len() - 1 {
                    if j < r.last().len() {
                        assert(q[k][j] == r[k][j]);
                    }
                } else {
                    assert(q[k] == r[k]);
                }
            }
        }
    }
}

/// `true` exactly when the two strings hold the same characters.
pub fn str_equal(a: &str, b: &str) -> (r: bool)
    ensures
        r == (a@ == b@),
{
    let n = a.unicode_len();
    if n != b.unicode_len() {
        return false;
    }
    let mut i: usize = 0;
    while i < n
        invariant
            n == a@.len(),
            n == b@.len(),
            i <= n,
            forall|j: int| 0 <= j < i ==> a@[j] == b@[j],
        decreases n - i,
    {
        if a.get_char(i) != b.get_char(i) {
            return false;
        }
        i = i + 1;
    }
    assert(a@ =~= b@);
    true
}

/// A new `String` holding the characters of `s` from `from` up to `to`.
pub fn substring(s: &str, from: usize, to: usize) -> (r: String)
    requires
        from <= to <= s@.len(),
    ensures
        r@ == s@.subrange(from as int, to as int),
{
    s.substring_char(from, to).to_owned()
}

/// A new `String` holding the characters of `s`.
pub fn to_string(s: &str) -> (r: String)
    ensures
        r@ == s@,
{
    s.to_owned()
}

/// `s` without its leading run of `c`, as `str::trim_start_matches` with a
/// character pattern gives it.
pub fn trim_start_matches(s: &str, c: char) -> (r: String)
    ensures
        r@ == trim_start(s@, c),
{
    let n = s.unicode_len();
    let mut i: usize = 0;
    while i < n && s.get_char(i) == c
        invariant
            n == s@.len(),
            i <= n,
            skip_run(s@, c, 0) == skip_run(s@, c, i as int),
        decreases n - i,
    {
        i = i + 1;
    }
    assert(skip_run(s@, c, i as int) == i);
    substring(s, i, n)
}

/// Index of the first `c` in `s`, if any.
pub fn find(s: &str, c: char) -> (r: Option<usize>)
    ensures
        match r {
            Some(i) => find_char(s@, c) == Some(i as int),
            None => find_char(s@, c) is None,
        },
{
    let n = s.unicode_len();
    let mut i: usize = 0;
    while i < n
        invariant
            n == s@.len(),
            i <= n,
            find_char(s@, c) == find_from(s@, c, i as int),
        decreases n - i,
    {
        if s.get_char(i) == c {
            return Some(i);
        }
        i = i + 1;
    }
    None
}

/// The pieces of `s` between occurrences of `c`, as `str::split` with a
/// character pattern yields them.
pub fn split(s: &str, c: char) -> (r: Vec<String>)
    ensures
        views(r@) == split_on(s@, c),
{
    let n = s.unicode_len();
    let mut pieces: Vec<String> = Vec::new();
    let mut start: usize = 0;
    let mut i: usize = 0;
    assert(s@.take(0) =~= Seq::<char>::empty());
    assert(views(pieces@).push(s@.subrange(0, 0)) =~= seq![Seq::<char>::empty()]);
    while i < n
        invariant
            n == s@.len(),
            start <= i <= n,
            views(pieces@).push(s@.subrange(start as int, i as int)) == split_on(s@.take(i as int), c),
        decreases n - i,
    {
        let ghost prev = s@.take(i as int);
        assert(s@.take(i + 1).drop_last() =~= prev);
        assert(s@.take(i + 1).last() == s@[i as int]);
        if s.get_char(i) == c {
            let ghost before = views(pieces@);
            let piece = substring(s, start, i);
            pieces.push(piece);
            assert(views(pieces@) =~= before.push(piece@));
            assert(s@.subrange(i + 1, i + 1) =~= Seq::<char>::empty());
            start = i + 1;
        } else {
            assert(s@.subrange(start as int, i + 1) =~= s@.subrange(start as int, i as int).push(s@[i as int]));
        }
        i = i + 1;
    }
    assert(s@.take(n as int) =~= s@);
    let ghost before = views(pieces@);
    let last = substring(s, start, n);
    pieces.push(last);
    assert(views(pieces@) =~= before.push(last@));
    pieces
}

/// A new `String` holding `a` followed by `b`.
pub fn concat(a: &str, b: &str) -> (r: String)
    ensures
        r@ == a@ + b@,
{
    let mut r = a.to_owned();
    r.append(b);
    r
}

/// The strings of `pieces` written one after another with `sep` between
/// neighbours, as `[String]::join` gives them.
pub fn join(pieces: &Vec<String>, sep: &str) -> (r: String)
    ensures
        r@ == join_with(views(pieces@), sep@),
{
    let n = pieces.len();
    if n == 0 {
        return String::new();
    }
    let mut r = pieces[0].clone();
    let mut i: usize = 1;
    assert(views(pieces@).take(1) =~= seq![pieces@[0]@]);
    while i < n
        invariant
            n == pieces@.len(),
            1 <= i <= n,
            r@ == join_with(views(pieces@).take(i as int), sep@),
        decreases n - i,
    {
        r.append(sep);
        r.append(pieces[i].as_str());
        assert(views(pieces@).take(i + 1).drop_last() =~= views(pieces@).take(i as int));
        i = i + 1;
    }
    assert(views(pieces@).take(n as int) =~= views(pieces@));
    r
}

} // verus!
