//! Safely parses a local configuration file (like .gclient or
//! .gclient_entries) containing only assignments of literals, lists, tuples,
//! dicts and basic operations.
//!
//! The accepted text is a sequence of assignments `name = expression`,
//! separated by white space and `#` comments. An expression is one or more
//! values joined by the binary operators `+ - * / %`. A value is a string
//! literal (single or double quotes, on one line; a backslash keeps the next
//! character as it is), an atom (a run of letters, digits, `_`, `.`, `+`, `-`:
//! numbers, `True`, `False`, `None`), a list `[...]`, a tuple `(...)` or a
//! dict `{key: value, ...}` of expressions, where a trailing comma is allowed.
//! The entries of a configuration are the pairs of the last dict assigned to
//! `entries`: a string literal, or a chain of string literals joined by `+`,
//! stands for its characters; any other expression for its text; of two equal
//! keys the later wins.
use vstd::prelude::*;
use crate::string_map::StringMap;

verus! {

/// White space between tokens.
pub open spec fn is_space(c: char) -> bool {
    c == ' ' || c == '\t' || c == '\n' || c == '\r'
}

/// A character of a name.
pub open spec fn is_word_char(c: char) -> bool {
    ('a' <= c && c <= 'z') || ('A' <= c && c <= 'Z') || ('0' <= c && c <= '9') || c == '_'
}

/// A character of an atom (a number or a keyword such as `None`).
pub open spec fn is_atom_char(c: char) -> bool {
    is_word_char(c) || c == '.' || c == '+' || c == '-'
}

/// Index of the first character at or after `i` that is neither white space
/// nor inside a comment.
pub open spec fn skip_blank(s: Seq<char>, i: int, in_comment: bool) -> int
    decreases s.len() - i,
{
    if 0 <= i < s.len() {
        if in_comment {
            skip_blank(s, i + 1, s[i] != '\n')
        } else if is_space(s[i]) {
            skip_blank(s, i + 1, false)
        } else if s[i] == '#' {
            skip_blank(s, i + 1, true)
        } else {
            i
        }
    } else {
        i
    }
}

/// Index of the next token at or after `i`.
pub open spec fn blank_end(s: Seq<char>, i: int) -> int {
    skip_blank(s, i, false)
}

/// End of the run of name characters (`word`) or atom characters from `i`.
pub open spec fn run_end(s: Seq<char>, i: int, word: bool) -> int
    decreases s.len() - i,
{
    if 0 <= i < s.len() && (if word {
        is_word_char(s[i])
    } else {
        is_atom_char(s[i])
    }) {
        run_end(s, i + 1, word)
    } else {
        i
    }
}

/// The string literal whose body starts at `i` and is closed by `q`: the
/// index after the closing quote and the characters the literal stands for.
pub open spec fn string_body(s: Seq<char>, i: int, q: char) -> Option<(int, Seq<char>)>
    decreases s.len() - i,
{
    if 0 <= i < s.len() {
        if s[i] == q {
            Some((i + 1, Seq::empty()))
        } else if s[i] == '\n' {
            None
        } else if s[i] == '\\' {
            if i + 1 < s.len() {
                match string_body(s, i + 2, q) {
                    Some((e, t)) => Some((e, seq![s[i + 1]] + t)),
                    None => None,
                }
            } else {
                None
            }
        } else {
            match string_body(s, i + 1, q) {
                Some((e, t)) => Some((e, seq![s[i]] + t)),
                None => None,
            }
        }
    } else {
        None
    }
}

/// Whether `c` opens a string literal.
pub open spec fn is_quote(c: char) -> bool {
    c == '\'' || c == '"'
}

/// The end of the value that starts at `i`.
pub open spec fn value_end(s: Seq<char>, i: int, fuel: nat) -> Option<int>
    decreases fuel, 0nat,
{
    if !(0 <= i < s.len()) {
        None
    } else if is_quote(s[i]) {
        match string_body(s, i + 1, s[i]) {
            Some((e, _)) => Some(e),
            None => None,
        }
    } else if is_atom_char(s[i]) {
        Some(run_end(s, i, false))
    } else if fuel == 0 {
        None
    } else if s[i] == '[' {
        items_end(s, blank_end(s, i + 1), ']', (fuel - 1) as nat)
    } else if s[i] == '(' {
        items_end(s, blank_end(s, i + 1), ')', (fuel - 1) as nat)
    } else if s[i] == '{' {
        match dict_body(s, blank_end(s, i + 1), (fuel - 1) as nat) {
            Some((e, _)) => Some(e),
            None => None,
        }
    } else {
        None
    }
}

/// A binary operator between values.
pub open spec fn is_operator(c: char) -> bool {
    c == '+' || c == '-' || c == '*' || c == '/' || c == '%'
}

/// The characters of the string literal that starts at `i`, if one does.
pub open spec fn string_content(s: Seq<char>, i: int) -> Option<Seq<char>> {
    if 0 <= i < s.len() && is_quote(s[i]) {
        match string_body(s, i + 1, s[i]) {
            Some((_, t)) => Some(t),
            None => None,
        }
    } else {
        None
    }
}

/// The expression that starts at `i`: values joined by binary operators. Its
/// end, and the characters it stands for when it is a chain of string
/// literals joined by `+`.
pub open spec fn expr(s: Seq<char>, i: int, fuel: nat) -> Option<(int, Option<Seq<char>>)>
    decreases fuel, 1nat,
{
    match value_end(s, i, fuel) {
        Some(e) => {
            let here = string_content(s, i);
            let j = blank_end(s, e);
            if 0 <= j < s.len() && is_operator(s[j]) && fuel > 0 {
                match expr(s, blank_end(s, j + 1), (fuel - 1) as nat) {
                    Some((e2, rest)) => Some(
                        (
                            e2,
                            if s[j] == '+' && here is Some && rest is Some {
                                Some(here.unwrap() + rest.unwrap())
                            } else {
                                None
                            },
                        ),
                    ),
                    None => None,
                }
            } else {
                Some((e, here))
            }
        },
        None => None,
    }
}

/// What the expression from `i` to `e` stands for: the characters of a chain
/// of strings, the text of anything else.
pub open spec fn expr_text(s: Seq<char>, i: int, e: int, content: Option<Seq<char>>) -> Seq<char> {
    match content {
        Some(t) => t,
        None => s.subrange(i, e),
    }
}

/// The end of the items of a list or tuple from `i` up to and including the
/// closing `close`.
pub open spec fn items_end(s: Seq<char>, i: int, close: char, fuel: nat) -> Option<int>
    decreases fuel, 2nat,
{
    if !(0 <= i < s.len()) {
        None
    } else if s[i] == close {
        Some(i + 1)
    } else {
        match expr(s, i, fuel) {
            Some((e, _)) => {
                let j = blank_end(s, e);
                if 0 <= j < s.len() && s[j] == close {
                    Some(j + 1)
                } else if 0 <= j < s.len() && s[j] == ',' && fuel > 0 {
                    items_end(s, blank_end(s, j + 1), close, (fuel - 1) as nat)
                } else {
                    None
                }
            },
            None => None,
        }
    }
}

/// The pairs of a dict from `i` up to and including the closing `}`, and the
/// index after it.
pub open spec fn dict_body(s: Seq<char>, i: int, fuel: nat) -> Option<(int, Seq<(Seq<char>, Seq<char>)>)>
    decreases fuel, 2nat,
{
    if !(0 <= i < s.len()) {
        None
    } else if s[i] == '}' {
        Some((i + 1, Seq::empty()))
    } else {
        match expr(s, i, fuel) {
            Some((ke, kc)) => {
                let j = blank_end(s, ke);
                if 0 <= j < s.len() && s[j] == ':' && fuel > 0 {
                    let v = blank_end(s, j + 1);
                    match expr(s, v, (fuel - 1) as nat) {
                        Some((ve, vc)) => {
                            let m = blank_end(s, ve);
                            let pair = (expr_text(s, i, ke, kc), expr_text(s, v, ve, vc));
                            if 0 <= m < s.len() && s[m] == '}' {
                                Some((m + 1, seq![pair]))
                            } else if 0 <= m < s.len() && s[m] == ',' {
                                match dict_body(s, blank_end(s, m + 1), (fuel - 1) as nat) {
                                    Some((e, ps)) => Some((e, seq![pair] + ps)),
                                    None => None,
                                }
                            } else {
                                None
                            }
                        },
                        None => None,
                    }
                } else {
                    None
                }
            },
            None => None,
        }
    }
}

/// The pairs of the last dict assigned to `entries` by the assignments from
/// `i` on (`Some(None)` when there is none), or `None` when the text from `i`
/// is not a sequence of assignments.
pub open spec fn statements(s: Seq<char>, i: int, fuel: nat) -> Option<Option<Seq<(Seq<char>, Seq<char>)>>>
    decreases fuel,
{
    if !(0 <= i < s.len()) {
        Some(None)
    } else if fuel == 0 {
        None
    } else {
        let n = run_end(s, i, true);
        let j = blank_end(s, n);
        if n == i || !(0 <= j < s.len() && s[j] == '=') {
            None
        } else {
            let v = blank_end(s, j + 1);
            let parsed: Option<(int, Option<Seq<(Seq<char>, Seq<char>)>>)> = if s.subrange(i, n)
                == "entries"@ && 0 <= v < s.len() && s[v] == '{' {
                match dict_body(s, blank_end(s, v + 1), (fuel - 1) as nat) {
                    Some((e, ps)) => Some((e, Some(ps))),
                    None => None,
                }
            } else {
                match expr(s, v, (fuel - 1) as nat) {
                    Some((e, _)) => Some((e, None)),
                    None => None,
                }
            };
            match parsed {
                Some((e, here)) => match statements(s, blank_end(s, e), (fuel - 1) as nat) {
                    Some(later) => Some(
                        if later is Some {
                            later
                        } else {
                            here
                        },
                    ),
                    None => None,
                },
                None => None,
            }
        }
    }
}

/// The map of a list of pairs; of two equal keys the later wins.
pub open spec fn pairs_map(ps: Seq<(Seq<char>, Seq<char>)>) -> Map<Seq<char>, Seq<char>>
    decreases ps.len(),
{
    if ps.len() == 0 {
        Map::empty()
    } else {
        pairs_map(ps.drop_last()).insert(ps.last().0, ps.last().1)
    }
}

/// The entries of a local configuration text, or `None` when the text is not
/// a local configuration.
pub open spec fn local_config_entries(s: Seq<char>) -> Option<Map<Seq<char>, Seq<char>>> {
    match statements(s, blank_end(s, 0), s.len()) {
        Some(Some(ps)) => Some(pairs_map(ps)),
        Some(None) => Some(Map::empty()),
        None => None,
    }
}

/// The views of a list of character-list pairs.
pub open spec fn pair_views(ps: Seq<(Vec<char>, Vec<char>)>) -> Seq<(Seq<char>, Seq<char>)> {
    ps.map_values(|p: (Vec<char>, Vec<char>)| (p.0@, p.1@))
}

/// The characters of `s`.
fn chars_of(s: &str) -> (r: Vec<char>)
    ensures
        r@ == s@,
{
    broadcast use vstd::string::group_string_axioms;
    let mut r: Vec<char> = Vec::new();
    for c in it: s.chars()
        invariant
            it.seq() == s@,
            r@ == it.seq().take(it.index() as int),
    {
        assert(it.seq().take(it.index() + 1) =~= r@.push(c));
        r.push(c);
    }
    assert(s@.take(s@.len() as int) =~= s@);
    r
}

/// `std::string::String::from_iter` over the characters of `v`: the string
/// holding exactly those characters.
#[verifier::external_body]
fn string_from_chars(v: &Vec<char>) -> (r: String)
    ensures
        r@ == v@,
{
    String::from_iter(v.iter())
}

fn is_space_exec(c: char) -> (r: bool)
    ensures
        r == is_space(c),
{
    c == ' ' || c == '\t' || c == '\n' || c == '\r'
}

fn is_word_char_exec(c: char) -> (r: bool)
    ensures
        r == is_word_char(c),
{
    ('a' <= c && c <= 'z') || ('A' <= c && c <= 'Z') || ('0' <= c && c <= '9') || c == '_'
}

fn is_atom_char_exec(c: char) -> (r: bool)
    ensures
        r == is_atom_char(c),
{
    is_word_char_exec(c) || c == '.' || c == '+' || c == '-'
}

fn blank_end_exec(s: &Vec<char>, i: usize) -> (r: usize)
    requires
        i <= s@.len(),
    ensures
        r as int == blank_end(s@, i as int),
        i <= r <= s@.len(),
{
    let mut j = i;
    let mut in_comment = false;
    while j < s.len()
        invariant
            i <= j <= s@.len(),
            blank_end(s@, i as int) == skip_blank(s@, j as int, in_comment),
        decreases s@.len() - j,
    {
        let c = s[j];
        if in_comment {
            in_comment = c != '\n';
        } else if is_space_exec(c) {
        } else if c == '#' {
            in_comment = true;
        } else {
            return j;
        }
        j = j + 1;
    }
    j
}

fn run_char_exec(c: char, word: bool) -> (r: bool)
    ensures
        r == (if word {
            is_word_char(c)
        } else {
            is_atom_char(c)
        }),
{
    if word {
        is_word_char_exec(c)
    } else {
        is_atom_char_exec(c)
    }
}

fn run_end_exec(s: &Vec<char>, i: usize, word: bool) -> (r: usize)
    requires
        i <= s@.len(),
    ensures
        r as int == run_end(s@, i as int, word),
        i <= r <= s@.len(),
        i < s@.len() && (if word {
            is_word_char(s@[i as int])
        } else {
            is_atom_char(s@[i as int])
        }) ==> i < r,
{
    let mut j = i;
    while j < s.len() && run_char_exec(s[j], word)
        invariant
            i <= j <= s@.len(),
            run_end(s@, i as int, word) == run_end(s@, j as int, word),
        decreases s@.len() - j,
    {
        j = j + 1;
    }
    j
}

fn string_body_exec(s: &Vec<char>, i: usize, q: char) -> (r: Option<(usize, Vec<char>)>)
    requires
        i <= s@.len(),
    ensures
        match r {
            Some((e, t)) => string_body(s@, i as int, q) == Some((e as int, t@)) && i < e <= s@.len(),
            None => string_body(s@, i as int, q) is None,
        },
{
    let mut acc: Vec<char> = Vec::new();
    let mut j = i;
    while j < s.len()
        invariant
            i <= j <= s@.len(),
            string_body(s@, i as int, q) == match string_body(s@, j as int, q) {
                Some((e, t)) => Some((e, acc@ + t)),
                None => None,
            },
        decreases s@.len() - j,
    {
        let c = s[j];
        if c == q {
            assert(acc@ + Seq::<char>::empty() =~= acc@);
            return Some((j + 1, acc));
        } else if c == '\n' {
            return None;
        } else if c == '\\' {
            if j + 1 < s.len() {
                let ghost before = acc@;
                acc.push(s[j + 1]);
                proof {
                    assert forall|t: Seq<char>| before + (seq![s@[j + 1]] + t) =~= acc@ + t by {}
                }
                j = j + 2;
            } else {
                return None;
            }
        } else {
            let ghost before = acc@;
            acc.push(c);
            proof {
                assert forall|t: Seq<char>| before + (seq![c] + t) =~= acc@ + t by {}
            }
            j = j + 1;
        }
    }
    None
}

fn value_end_exec(s: &Vec<char>, i: usize, fuel: usize) -> (r: Option<usize>)
    ensures
        match r {
            Some(e) => value_end(s@, i as int, fuel as nat) == Some(e as int) && i < e <= s@.len(),
            None => value_end(s@, i as int, fuel as nat) is None,
        },
    decreases fuel, 0nat,
{
    if i >= s.len() {
        return None;
    }
    let c = s[i];
    if c == '\'' || c == '"' {
        match string_body_exec(s, i + 1, c) {
            Some((e, _)) => Some(e),
            None => None,
        }
    } else if is_atom_char_exec(c) {
        Some(run_end_exec(s, i, false))
    } else if fuel == 0 {
        None
    } else if c == '[' {
        items_end_exec(s, blank_end_exec(s, i + 1), ']', fuel - 1)
    } else if c == '(' {
        items_end_exec(s, blank_end_exec(s, i + 1), ')', fuel - 1)
    } else if c == '{' {
        match dict_body_exec(s, blank_end_exec(s, i + 1), fuel - 1) {
            Some((e, _)) => Some(e),
            None => None,
        }
    } else {
        None
    }
}

fn is_operator_exec(c: char) -> (r: bool)
    ensures
        r == is_operator(c),
{
    c == '+' || c == '-' || c == '*' || c == '/' || c == '%'
}

fn string_content_exec(s: &Vec<char>, i: usize) -> (r: Option<Vec<char>>)
    ensures
        match r {
            Some(t) => string_content(s@, i as int) == Some(t@),
            None => string_content(s@, i as int) is None,
        },
{
    if i < s.len() && (s[i] == '\'' || s[i] == '"') {
        match string_body_exec(s, i + 1, s[i]) {
            Some((_, t)) => Some(t),
            None => None,
        }
    } else {
        None
    }
}

fn expr_exec(s: &Vec<char>, i: usize, fuel: usize) -> (r: Option<(usize, Option<Vec<char>>)>)
    ensures
        match r {
            Some((e, Some(t))) => expr(s@, i as int, fuel as nat) == Some((e as int, Some(t@))) && i < e
                <= s@.len(),
            Some((e, None)) => expr(s@, i as int, fuel as nat) == Some((e as int, None::<Seq<char>>))
                && i < e <= s@.len(),
            None => expr(s@, i as int, fuel as nat) is None,
        },
    decreases fuel, 1nat,
{
    let e = match value_end_exec(s, i, fuel) {
        Some(e) => e,
        None => return None,
    };
    let here = string_content_exec(s, i);
    let j = blank_end_exec(s, e);
    if j < s.len() && is_operator_exec(s[j]) && fuel > 0 {
        match expr_exec(s, blank_end_exec(s, j + 1), fuel - 1) {
            Some((e2, rest)) => {
                if s[j] == '+' {
                    match (here, rest) {
                        (Some(h), Some(t)) => {
                            let mut h = h;
                            let mut t = t;
                            let ghost hv = h@;
                            let ghost tv = t@;
                            h.append(&mut t);
                            assert(h@ =~= hv + tv);
                            Some((e2, Some(h)))
                        },
                        _ => Some((e2, None)),
                    }
                } else {
                    Some((e2, None))
                }
            },
            None => None,
        }
    } else {
        Some((e, here))
    }
}

fn items_end_exec(s: &Vec<char>, i: usize, close: char, fuel: usize) -> (r: Option<usize>)
    ensures
        match r {
            Some(e) => items_end(s@, i as int, close, fuel as nat) == Some(e as int) && i < e <= s@.len(),
            None => items_end(s@, i as int, close, fuel as nat) is None,
        },
    decreases fuel, 2nat,
{
    if i >= s.len() {
        return None;
    }
    if s[i] == close {
        return Some(i + 1);
    }
    match expr_exec(s, i, fuel) {
        Some((e, _)) => {
            let j = blank_end_exec(s, e);
            if j < s.len() && s[j] == close {
                Some(j + 1)
            } else if j < s.len() && s[j] == ',' && fuel > 0 {
                items_end_exec(s, blank_end_exec(s, j + 1), close, fuel - 1)
            } else {
                None
            }
        },
        None => None,
    }
}

fn copy_range(s: &Vec<char>, i: usize, e: usize) -> (r: Vec<char>)
    requires
        i <= e <= s@.len(),
    ensures
        r@ == s@.subrange(i as int, e as int),
{
    let mut r: Vec<char> = Vec::new();
    let mut j = i;
    while j < e
        invariant
            i <= j <= e <= s@.len(),
            r@ == s@.subrange(i as int, j as int),
        decreases e - j,
    {
        r.push(s[j]);
        assert(r@ =~= s@.subrange(i as int, j + 1));
        j = j + 1;
    }
    r
}

fn expr_text_exec(s: &Vec<char>, i: usize, e: usize, content: Option<Vec<char>>) -> (r: Vec<char>)
    requires
        i <= e <= s@.len(),
    ensures
        r@ == expr_text(
            s@,
            i as int,
            e as int,
            match content {
                Some(t) => Some(t@),
                None => None,
            },
        ),
{
    match content {
        Some(t) => t,
        None => copy_range(s, i, e),
    }
}

/// The view of an optional character list.
pub open spec fn opt_chars(o: Option<Vec<char>>) -> Option<Seq<char>> {
    match o {
        Some(t) => Some(t@),
        None => None,
    }
}

fn dict_body_exec(s: &Vec<char>, i: usize, fuel: usize) -> (r: Option<(usize, Vec<(Vec<char>, Vec<char>)>)>)
    ensures
        match r {
            Some((e, ps)) => dict_body(s@, i as int, fuel as nat) == Some((e as int, pair_views(ps@)))
                && i < e <= s@.len(),
            None => dict_body(s@, i as int, fuel as nat) is None,
        },
    decreases fuel, 2nat,
{
    if i >= s.len() {
        return None;
    }
    if s[i] == '}' {
        let ps: Vec<(Vec<char>, Vec<char>)> = Vec::new();
        assert(pair_views(ps@) =~= Seq::<(Seq<char>, Seq<char>)>::empty());
        return Some((i + 1, ps));
    }
    let (ke, kc) = match expr_exec(s, i, fuel) {
        Some(x) => x,
        None => return None,
    };
    let ghost kcv = opt_chars(kc);
    assert(expr(s@, i as int, fuel as nat) == Some((ke as int, kcv)));
    let j = blank_end_exec(s, ke);
    if !(j < s.len() && s[j] == ':' && fuel > 0) {
        return None;
    }
    let v = blank_end_exec(s, j + 1);
    let (ve, vc) = match expr_exec(s, v, fuel - 1) {
        Some(x) => x,
        None => return None,
    };
    let ghost vcv = opt_chars(vc);
    assert(expr(s@, v as int, (fuel - 1) as nat) == Some((ve as int, vcv)));
    let m = blank_end_exec(s, ve);
    let key = expr_text_exec(s, i, ke, kc);
    let value = expr_text_exec(s, v, ve, vc);
    let ghost pair = (key@, value@);
    if m < s.len() && s[m] == '}' {
        let mut ps: Vec<(Vec<char>, Vec<char>)> = Vec::new();
        ps.push((key, value));
        assert(pair_views(ps@) =~= seq![pair]);
        Some((m + 1, ps))
    } else if m < s.len() && s[m] == ',' {
        match dict_body_exec(s, blank_end_exec(s, m + 1), fuel - 1) {
            Some((e, rest)) => {
                let mut ps = rest;
                ps.insert(0, (key, value));
                assert(pair_views(ps@) =~= seq![pair] + pair_views(rest@));
                Some((e, ps))
            },
            None => None,
        }
    } else {
        None
    }
}

/// Whether `s` from `i` to `n` spells `entries`.
fn is_entries_name(s: &Vec<char>, i: usize, n: usize) -> (r: bool)
    requires
        i <= n <= s@.len(),
    ensures
        r == (s@.subrange(i as int, n as int) == "entries"@),
{
    let name = copy_range(s, i, n);
    let expected = chars_of("entries");
    let mut same = name.len() == expected.len();
    let mut k: usize = 0;
    while same && k < name.len()
        invariant
            same ==> name@.len() == expected@.len(),
            k <= name@.len(),
            same ==> forall|x: int| 0 <= x < k ==> name@[x] == expected@[x],
            !same ==> name@ != expected@,
        decreases name@.len() - k,
    {
        if name[k] != expected[k] {
            same = false;
            assert(name@[k as int] != expected@[k as int]);
        }
        k = k + 1;
    }
    if same {
        assert(name@ =~= expected@);
    }
    same
}

fn statements_exec(s: &Vec<char>, i: usize, fuel: usize) -> (r: Option<Option<Vec<(Vec<char>, Vec<char>)>>>)
    requires
        i <= s@.len(),
    ensures
        match r {
            Some(Some(ps)) => statements(s@, i as int, fuel as nat) == Some(Some(pair_views(ps@))),
            Some(None) => statements(s@, i as int, fuel as nat) == Some(
                None::<Seq<(Seq<char>, Seq<char>)>>,
            ),
            None => statements(s@, i as int, fuel as nat) is None,
        },
    decreases fuel,
{
    if i >= s.len() {
        return Some(None);
    }
    if fuel == 0 {
        return None;
    }
    let n = run_end_exec(s, i, true);
    let j = blank_end_exec(s, n);
    if n == i || !(j < s.len() && s[j] == '=') {
        return None;
    }
    let v = blank_end_exec(s, j + 1);
    let (e, here) = if is_entries_name(s, i, n) && v < s.len() && s[v] == '{' {
        match dict_body_exec(s, blank_end_exec(s, v + 1), fuel - 1) {
            Some((e, ps)) => (e, Some(ps)),
            None => return None,
        }
    } else {
        match expr_exec(s, v, fuel - 1) {
            Some((e, _)) => (e, None),
            None => return None,
        }
    };
    match statements_exec(s, blank_end_exec(s, e), fuel - 1) {
        Some(Some(later)) => Some(Some(later)),
        Some(None) => Some(here),
        None => None,
    }
}

/// The entries of a local configuration text, or `None` when the text is not
/// a local configuration.
fn parse_entries(content: &str) -> (r: Option<StringMap>)
    ensures
        match r {
            Some(m) => local_config_entries(content@) == Some(m@),
            None => local_config_entries(content@) is None,
        },
{
    let s = chars_of(content);
    let start = blank_end_exec(&s, 0);
    match statements_exec(&s, start, s.len()) {
        Some(Some(ps)) => {
            let ghost pv = pair_views(ps@);
            let mut m = StringMap::new();
            let mut k: usize = 0;
            assert(pv.take(0) =~= Seq::<(Seq<char>, Seq<char>)>::empty());
            while k < ps.len()
                invariant
                    pv == pair_views(ps@),
                    k <= ps@.len(),
                    m@ == pairs_map(pv.take(k as int)),
                decreases ps@.len() - k,
            {
                let key = string_from_chars(&ps[k].0);
                let value = string_from_chars(&ps[k].1);
                m.insert(key, value);
                assert(pv.take(k + 1).drop_last() =~= pv.take(k as int));
                k = k + 1;
            }
            assert(pv.take(ps@.len() as int) =~= pv);
            Some(m)
        },
        Some(None) => Some(StringMap::new()),
        None => None,
    }
}

/// The parsed contents of a local configuration file.
#[derive(Debug)]
pub struct LocalConfig {
    pub entries: StringMap,
}

/// Whether `content` is a local configuration that `parse_local_config`
/// accepts.
pub fn is_local_config(content: &str) -> (r: bool)
    ensures
        r == local_config_entries(content@) is Some,
{
    parse_entries(content).is_some()
}

/// Parses the local configuration text `content` of the file `_filename`
/// (which names the file to the caller's diagnostics).
pub fn parse_local_config(content: &str, _filename: &str) -> (r: LocalConfig)
    requires
        local_config_entries(content@) is Some,
    ensures
        local_config_entries(content@) == Some(r.entries@),
{
    match parse_entries(content) {
        Some(entries) => LocalConfig { entries },
        None => LocalConfig { entries: StringMap::new() },
    }
}

proof fn lemma_blank_to_end(s: Seq<char>, i: int)
    requires
        0 <= i <= s.len(),
        forall|j: int| 0 <= j < s.len() ==> is_space(#[trigger] s[j]),
    ensures
        skip_blank(s, i, false) == s.len(),
    decreases s.len() - i,
{
    if i < s.len() {
        lemma_blank_to_end(s, i + 1);
    }
}

/// A text of white space only is a local configuration without entries.
pub proof fn lemma_blank_config_has_no_entries(s: Seq<char>)
    requires
        forall|j: int| 0 <= j < s.len() ==> is_space(#[trigger] s[j]),
    ensures
        local_config_entries(s) == Some(Map::<Seq<char>, Seq<char>>::empty()),
{
    lemma_blank_to_end(s, 0);
}

/// Of two pairs with the same key, the later one is the entry.
pub proof fn lemma_later_pair_wins(ps: Seq<(Seq<char>, Seq<char>)>, k: Seq<char>, v: Seq<char>)
    ensures
        pairs_map(ps.push((k, v))).contains_key(k),
        pairs_map(ps.push((k, v)))[k] == v,
{
    assert(ps.push((k, v)).drop_last() =~= ps);
}

/// Whether `t` can stand between single quotes as it is: it holds no quote,
/// backslash or line break.
pub open spec fn is_plain(t: Seq<char>) -> bool {
    forall|i: int| 0 <= i < t.len() ==> t[i] != '\'' && t[i] != '\\' && t[i] != '\n'
}

/// `t` between single quotes.
pub open spec fn quoted(t: Seq<char>) -> Seq<char> {
    seq!['\''] + t + seq!['\'']
}

/// One `'key':'value',` item of a dict.
pub open spec fn pair_text(p: (Seq<char>, Seq<char>)) -> Seq<char> {
    quoted(p.0) + seq![':'] + quoted(p.1) + seq![',']
}

/// The items of a dict, one after another.
pub open spec fn pairs_text(ps: Seq<(Seq<char>, Seq<char>)>) -> Seq<char>
    decreases ps.len(),
{
    if ps.len() == 0 {
        Seq::empty()
    } else {
        pair_text(ps[0]) + pairs_text(ps.drop_first())
    }
}

/// The text `entries={'k1':'v1',...,'kn':'vn',}`.
pub open spec fn entries_text(ps: Seq<(Seq<char>, Seq<char>)>) -> Seq<char> {
    seq!['e', 'n', 't', 'r', 'i', 'e', 's', '=', '{'] + pairs_text(ps) + seq!['}']
}

proof fn lemma_pairs_text_len(ps: Seq<(Seq<char>, Seq<char>)>)
    ensures
        pairs_text(ps).len() >= 6 * ps.len(),
    decreases ps.len(),
{
    if ps.len() > 0 {
        lemma_pairs_text_len(ps.drop_first());
    }
}

proof fn lemma_plain_string_body(s: Seq<char>, i: int, t: Seq<char>)
    requires
        0 <= i,
        i + t.len() < s.len(),
        is_plain(t),
        forall|j: int| 0 <= j < t.len() ==> s[i + j] == t[j],
        s[i + t.len()] == '\'',
    ensures
        string_body(s, i, '\'') == Some((i + t.len() + 1, t)),
    decreases t.len(),
{
    if t.len() == 0 {
        assert(t =~= Seq::<char>::empty());
    } else {
        assert(s[i] == t[0]);
        let u = t.drop_first();
        assert forall|j: int| 0 <= j < u.len() implies s[i + 1 + j] == u[j] by {
            assert(s[i + (j + 1)] == t[j + 1]);
        }
        lemma_plain_string_body(s, i + 1, u);
        assert(seq![t[0]] + u =~= t);
    }
}

/// A blank-free position is its own next token.
proof fn lemma_blank_end_here(s: Seq<char>, i: int)
    requires
        0 <= i < s.len(),
        !is_space(s[i]),
        s[i] != '#',
    ensures
        blank_end(s, i) == i,
{
}

proof fn lemma_dict_items(s: Seq<char>, p: int, ps: Seq<(Seq<char>, Seq<char>)>, f: nat)
    requires
        0 <= p,
        p + pairs_text(ps).len() + 1 <= s.len(),
        forall|j: int| 0 <= j < pairs_text(ps).len() + 1 ==> #[trigger] s[p + j] == (pairs_text(ps) + seq!['}'])[j],
        forall|i: int| 0 <= i < ps.len() ==> is_plain(#[trigger] ps[i].0) && is_plain(ps[i].1),
        f >= ps.len(),
    ensures
        dict_body(s, p, f) == Some((p + pairs_text(ps).len() + 1, ps)),
    decreases ps.len(),
{
    let t = pairs_text(ps) + seq!['}'];
    if ps.len() == 0 {
        assert(s[p + 0] == t[0]);
        assert(ps =~= Seq::<(Seq<char>, Seq<char>)>::empty());
    } else {
        let k = ps[0].0;
        let v = ps[0].1;
        let rest = ps.drop_first();
        let pt = pair_text(ps[0]);
        assert(t =~= pt + (pairs_text(rest) + seq!['}']));
        let c = p + 2 + k.len();
        let m = c + 3 + v.len();
        // the key
        assert(s[p + 0] == '\'');
        assert forall|j: int| 0 <= j < k.len() implies s[(p + 1) + j] == k[j] by {
            assert(s[p + (1 + j)] == t[1 + j]);
        }
        assert(s[p + (1 + k.len())] == '\'');
        lemma_plain_string_body(s, p + 1, k);
        assert(s[p + (2 + k.len())] == ':');
        lemma_blank_end_here(s, c);
        assert(string_body(s, p + 1, s[p]) == Some((c, k)));
        assert(value_end(s, p, f) == Some(c));
        assert(string_content(s, p) == Some(k));
        assert(!is_operator(s[c]));
        assert(expr(s, p, f) == Some((c, Some(k))));
        // the value
        assert(s[p + (3 + k.len())] == '\'');
        lemma_blank_end_here(s, c + 1);
        assert forall|j: int| 0 <= j < v.len() implies s[(c + 2) + j] == v[j] by {
            assert(s[p + (4 + k.len() + j)] == t[4 + k.len() + j]);
        }
        assert(s[p + (4 + k.len() + v.len())] == '\'');
        lemma_plain_string_body(s, c + 2, v);
        assert(s[p + (5 + k.len() + v.len())] == ',');
        lemma_blank_end_here(s, m);
        assert(s[c + 1] == '\'');
        assert(string_body(s, c + 2, s[c + 1]) == Some((m, v)));
        assert(value_end(s, c + 1, (f - 1) as nat) == Some(m));
        assert(string_content(s, c + 1) == Some(v));
        assert(!is_operator(s[m]));
        assert(expr(s, c + 1, (f - 1) as nat) == Some((m, Some(v))));
        // the rest
        let q = m + 1;
        assert(q == p + pt.len());
        assert forall|j: int| 0 <= j < pairs_text(rest).len() + 1 implies #[trigger] s[q + j] == (pairs_text(
            rest,
        ) + seq!['}'])[j] by {
            assert(s[p + (pt.len() + j)] == t[pt.len() + j]);
        }
        assert(s[q + 0] == (pairs_text(rest) + seq!['}'])[0]);
        if rest.len() == 0 {
            assert(pairs_text(rest) =~= Seq::<char>::empty());
        } else {
            assert(pairs_text(rest)[0] == '\'');
        }
        lemma_blank_end_here(s, q);
        assert forall|i: int| 0 <= i < rest.len() implies is_plain(#[trigger] rest[i].0) && is_plain(
            rest[i].1,
        ) by {
            assert(rest[i] == ps[i + 1]);
        }
        lemma_dict_items(s, q, rest, (f - 1) as nat);
        assert(seq![(k, v)] + rest =~= ps);
    }
}

proof fn lemma_pairs_map_distinct(ps: Seq<(Seq<char>, Seq<char>)>)
    requires
        forall|i: int, j: int| 0 <= i < ps.len() && 0 <= j < ps.len() && i != j ==> ps[i].0 != ps[j].0,
    ensures
        forall|k: Seq<char>| pairs_map(ps).contains_key(k) <==> exists|i: int| 0 <= i < ps.len() && ps[i].0 == k,
        forall|i: int| 0 <= i < ps.len() ==> pairs_map(ps)[#[trigger] ps[i].0] == ps[i].1,
    decreases ps.len(),
{
    if ps.len() > 0 {
        let init = ps.drop_last();
        lemma_pairs_map_distinct(init);
        assert(pairs_map(ps) == pairs_map(init).insert(ps.last().0, ps.last().1));
        assert forall|k: Seq<char>| pairs_map(ps).contains_key(k) implies exists|i: int|
            0 <= i < ps.len() && ps[i].0 == k by {
            if k != ps.last().0 {
                assert(pairs_map(init).contains_key(k));
                let i = choose|i: int| 0 <= i < init.len() && init[i].0 == k;
                assert(0 <= i < init.len());
                assert(init[i] == ps[i]);
                assert(ps[i].0 == k);
            } else {
                assert(ps[ps.len() - 1].0 == k);
            }
        }
        assert forall|k: Seq<char>| (exists|i: int| 0 <= i < ps.len() && ps[i].0 == k) implies pairs_map(
            ps,
        ).contains_key(k) by {
            let i = choose|i: int| 0 <= i < ps.len() && ps[i].0 == k;
            if i < ps.len() - 1 {
                assert(init[i] == ps[i]);
            }
        }
        assert forall|i: int| 0 <= i < ps.len() implies pairs_map(ps)[#[trigger] ps[i].0] == ps[i].1 by {
            if i < ps.len() - 1 {
                assert(init[i] == ps[i]);
                assert(ps[i].0 != ps[ps.len() - 1].0);
            }
        }
    }
}

/// A `.gclient_entries`-style text `entries={'k1':'v1',...,'kn':'vn',}` of
/// distinct keys is a local configuration for every number of pairs, and its
/// entries map exactly each key to its value.
pub proof fn lemma_entries_text_parses(ps: Seq<(Seq<char>, Seq<char>)>)
    requires
        forall|i: int| 0 <= i < ps.len() ==> is_plain(#[trigger] ps[i].0) && is_plain(ps[i].1),
        forall|i: int, j: int| 0 <= i < ps.len() && 0 <= j < ps.len() && i != j ==> ps[i].0 != ps[j].0,
    ensures
        local_config_entries(entries_text(ps)) matches Some(m) && (forall|k: Seq<char>|
            m.contains_key(k) <==> exists|i: int| 0 <= i < ps.len() && ps[i].0 == k) && (forall|i: int|
            0 <= i < ps.len() ==> m[#[trigger] ps[i].0] == ps[i].1),
{
    let s = entries_text(ps);
    let head = seq!['e', 'n', 't', 'r', 'i', 'e', 's', '=', '{'];
    let body = pairs_text(ps) + seq!['}'];
    assert(s =~= head + body);
    lemma_pairs_text_len(ps);
    let n = s.len();
    reveal_strlit("entries");
    assert(s.subrange(0, 7) =~= "entries"@);
    reveal_with_fuel(run_end, 9);
    assert(run_end(s, 0, true) == 7);
    lemma_blank_end_here(s, 0);
    lemma_blank_end_here(s, 7);
    lemma_blank_end_here(s, 8);
    if ps.len() == 0 {
        assert(pairs_text(ps) =~= Seq::<char>::empty());
    } else {
        assert(pairs_text(ps)[0] == '\'');
    }
    assert(s[9] == body[0]);
    lemma_blank_end_here(s, 9);
    assert forall|j: int| 0 <= j < pairs_text(ps).len() + 1 implies #[trigger] s[9 + j] == (pairs_text(
        ps,
    ) + seq!['}'])[j] by {}
    lemma_dict_items(s, 9, ps, (n - 1) as nat);
    assert(statements(s, n as int, (n - 1) as nat) == Some(None::<Seq<(Seq<char>, Seq<char>)>>));
    assert(statements(s, 0, n) == Some(Some(ps)));
    lemma_pairs_map_distinct(ps);
}

} // verus!
