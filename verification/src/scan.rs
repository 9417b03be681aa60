//! Cutting text into pieces: lines, words, parameters, prefixes.
use crate::text;
use crate::text::{find_char_from, has_prefix, is_space_char, same_chars, trim_chars};
use vstd::prelude::*;
use vstd::slice::slice_subrange;

verus! {

/// `s` from position `i` on.
pub open spec fn rest(s: Seq<char>, i: int) -> Seq<char> {
    s.subrange(i, s.len() as int)
}

/// Position of the first white space at or after `from`, or the length.
pub open spec fn find_space(s: Seq<char>, from: int) -> int
    decreases s.len() - from,
{
    if from >= s.len() {
        s.len() as int
    } else if text::is_space(s[from]) {
        from
    } else {
        find_space(s, from + 1)
    }
}

/// Position of the first character that is not white space, or the length.
pub open spec fn skip_space(s: Seq<char>, from: int) -> int
    decreases s.len() - from,
{
    if from >= s.len() {
        s.len() as int
    } else if !text::is_space(s[from]) {
        from
    } else {
        skip_space(s, from + 1)
    }
}

/// The words of a text from position `from` on: maximal runs without white
/// space.
pub open spec fn words_from(s: Seq<char>, from: int) -> Seq<Seq<char>>
    decreases s.len() - from,
    when 0 <= from <= s.len()
    via words_from_terminates
{
    let a = skip_space(s, from);
    if a >= s.len() {
        Seq::empty()
    } else {
        let b = find_space(s, a);
        seq![s.subrange(a, b)] + words_from(s, b)
    }
}

#[via_fn]
proof fn words_from_terminates(s: Seq<char>, from: int) {
    space_bounds(s, from);
    let a = skip_space(s, from);
    if a < s.len() {
        space_bounds(s, a);
    }
}

/// The words of a text.
pub open spec fn words(s: Seq<char>) -> Seq<Seq<char>> {
    words_from(s, 0)
}

/// Where `find_space` and `skip_space` point.
pub proof fn space_bounds(s: Seq<char>, from: int)
    requires
        0 <= from <= s.len(),
    ensures
        from <= find_space(s, from) <= s.len(),
        from <= skip_space(s, from) <= s.len(),
        find_space(s, from) < s.len() ==> text::is_space(s[find_space(s, from)]),
        skip_space(s, from) < s.len() ==> !text::is_space(s[skip_space(s, from)]),
        from < s.len() && !text::is_space(s[from]) ==> find_space(s, from) > from,
        forall|i: int| from <= i < find_space(s, from) ==> !text::is_space(s[i]),
        forall|i: int| from <= i < skip_space(s, from) ==> text::is_space(s[i]),
    decreases s.len() - from,
{
    if from < s.len() {
        space_bounds(s, from + 1);
    }
}

fn next_space(s: &[char], from: usize) -> (r: usize)
    requires
        from <= s@.len(),
    ensures
        r == find_space(s@, from as int),
        from <= r <= s@.len(),
{
    let mut i: usize = from;
    while i < s.len() && !is_space_char(s[i])
        invariant
            from <= i <= s@.len(),
            find_space(s@, from as int) == find_space(s@, i as int),
        decreases s@.len() - i,
    {
        i += 1;
    }
    i
}

fn next_word(s: &[char], from: usize) -> (r: usize)
    requires
        from <= s@.len(),
    ensures
        r == skip_space(s@, from as int),
        from <= r <= s@.len(),
{
    let mut i: usize = from;
    while i < s.len() && is_space_char(s[i])
        invariant
            from <= i <= s@.len(),
            skip_space(s@, from as int) == skip_space(s@, i as int),
        decreases s@.len() - i,
    {
        i += 1;
    }
    i
}

/// The pieces of a list of texts.
pub open spec fn views(v: Seq<Vec<char>>) -> Seq<Seq<char>> {
    v.map_values(|x: Vec<char>| x@)
}

/// Copies the characters between two positions.
pub fn copy_chars(s: &[char], i: usize, j: usize) -> (r: Vec<char>)
    requires
        i <= j <= s@.len(),
    ensures
        r@ == s@.subrange(i as int, j as int),
{
    let mut out: Vec<char> = Vec::new();
    let mut k: usize = i;
    while k < j
        invariant
            i <= k <= j <= s@.len(),
            out@ == s@.subrange(i as int, k as int),
        decreases j - k,
    {
        out.push(s[k]);
        k += 1;
        assert(out@ =~= s@.subrange(i as int, k as int));
    }
    out
}

/// Cuts a text into words.
pub fn split_words(s: &[char]) -> (r: Vec<Vec<char>>)
    ensures
        views(r@) == words(s@),
{
    let mut out: Vec<Vec<char>> = Vec::new();
    let mut pos: usize = 0;
    assert(views(out@) =~= Seq::<Seq<char>>::empty());
    assert(Seq::<Seq<char>>::empty() + words(s@) =~= words(s@));
    loop
        invariant_except_break
            pos <= s@.len(),
            words(s@) == views(out@) + words_from(s@, pos as int),
        ensures
            views(out@) == words(s@),
        decreases s@.len() - pos,
    {
        let a: usize = next_word(s, pos);
        if a >= s.len() {
            assert(words_from(s@, pos as int) =~= Seq::<Seq<char>>::empty());
            assert(views(out@) =~= words(s@));
            break;
        }
        let b: usize = next_space(s, a);
        proof {
            space_bounds(s@, pos as int);
            space_bounds(s@, a as int);
        }
        let w = copy_chars(s, a, b);
        let ghost before = views(out@);
        out.push(w);
        proof {
            assert(views(out@) =~= before.push(s@.subrange(a as int, b as int)));
            assert(views(out@) + words_from(s@, b as int) =~= before + (seq![
                s@.subrange(a as int, b as int),
            ] + words_from(s@, b as int)));
        }
        pos = b;
    }
    out
}

/// `s` without a trailing carriage return.
pub open spec fn strip_cr(s: Seq<char>) -> Seq<char> {
    if s.len() > 0 && s.last() == '\r' {
        s.drop_last()
    } else {
        s
    }
}

/// The lines of a text: cut at each line feed, with the carriage return before
/// it.
pub open spec fn lines(s: Seq<char>) -> Seq<Seq<char>>
    decreases s.len(),
    via lines_terminates
{
    let k = text::find_char(s, '\n', 0);
    if k >= s.len() {
        seq![s]
    } else {
        seq![strip_cr(s.subrange(0, k))] + lines(rest(s, k + 1))
    }
}

#[via_fn]
proof fn lines_terminates(s: Seq<char>) {
    text::find_char_is_first(s, '\n', 0);
}

proof fn find_char_in_rest(s: Seq<char>, c: char, pos: int, from: int)
    requires
        0 <= pos <= from <= s.len(),
    ensures
        text::find_char(rest(s, pos), c, from - pos) == text::find_char(s, c, from) - pos,
    decreases s.len() - from,
{
    if from < s.len() && s[from] != c {
        find_char_in_rest(s, c, pos, from + 1);
    }
}

/// Cuts a text into lines.
pub fn split_lines(s: &[char]) -> (r: Vec<Vec<char>>)
    ensures
        views(r@) == lines(s@),
        r@.len() > 0,
{
    let mut out: Vec<Vec<char>> = Vec::new();
    let mut pos: usize = 0;
    assert(rest(s@, 0) =~= s@);
    assert(views(out@) =~= Seq::<Seq<char>>::empty());
    assert(Seq::<Seq<char>>::empty() + lines(s@) =~= lines(s@));
    loop
        invariant_except_break
            pos <= s@.len(),
            lines(s@) == views(out@) + lines(rest(s@, pos as int)),
        ensures
            views(out@) == lines(s@),
            out@.len() > 0,
        decreases s@.len() - pos,
    {
        let k: usize = find_char_from(s, '\n', pos);
        let ghost t = rest(s@, pos as int);
        proof {
            find_char_in_rest(s@, '\n', pos as int, pos as int);
        }
        let ghost before = views(out@);
        if k >= s.len() {
            let l = copy_chars(s, pos, s.len());
            out.push(l);
            proof {
                assert(views(out@) =~= before.push(t));
                assert(before + seq![t] =~= before.push(t));
            }
            break;
        }
        let mut end: usize = k;
        assert(t.subrange(0, k - pos) =~= s@.subrange(pos as int, k as int));
        if end > pos && s[end - 1] == '\r' {
            end -= 1;
        }
        let l = copy_chars(s, pos, end);
        assert(l@ =~= strip_cr(t.subrange(0, k - pos)));
        out.push(l);
        proof {
            assert(rest(t, k - pos + 1) =~= rest(s@, k + 1));
            assert(views(out@) =~= before.push(l@));
            assert(views(out@) + lines(rest(s@, k + 1)) =~= before + (seq![l@] + lines(
                rest(s@, k + 1),
            )));
        }
        pos = k + 1;
    }
    out
}

/// Whether `p` stands at position `i`.
pub open spec fn stands_at<A>(s: Seq<A>, p: Seq<A>, i: int) -> bool {
    0 <= i && i + p.len() <= s.len() && s.subrange(i, i + p.len()) == p
}

/// Position of the first occurrence of `p` at or after `from`.
pub open spec fn find_text<A>(s: Seq<A>, p: Seq<A>, from: int) -> Option<int>
    decreases s.len() + 1 - from,
{
    if from > s.len() {
        None
    } else if stands_at(s, p, from) {
        Some(from)
    } else {
        find_text(s, p, from + 1)
    }
}

/// Where `find_text` points.
pub proof fn find_text_is_first<A>(s: Seq<A>, p: Seq<A>, from: int)
    requires
        0 <= from,
    ensures
        match find_text(s, p, from) {
            Some(k) => {
                &&& from <= k
                &&& stands_at(s, p, k)
                &&& forall|i: int| from <= i < k ==> !#[trigger] stands_at(s, p, i)
            },
            None => forall|i: int| from <= i ==> !#[trigger] stands_at(s, p, i),
        },
    decreases s.len() + 1 - from,
{
    if from <= s.len() && !stands_at(s, p, from) {
        find_text_is_first(s, p, from + 1);
    }
}

/// Finds the first occurrence of a text at or after a position.
pub fn search_text(s: &[char], p: &[char], from: usize) -> (r: Option<usize>)
    requires
        from <= s@.len(),
    ensures
        match r {
            Some(k) => find_text(s@, p@, from as int) == Some(k as int) && k + p@.len() <= s@.len()
                && from <= k,
            None => find_text(s@, p@, from as int) is None,
        },
{
    let n: usize = s.len();
    let m: usize = p.len();
    let mut i: usize = from;
    while i <= n && m <= n - i
        invariant
            from <= i,
            i <= n + 1,
            n == s@.len(),
            m == p@.len(),
            n < usize::MAX || i <= n,
            find_text(s@, p@, from as int) == find_text(s@, p@, i as int),
        decreases n + 1 - i,
    {
        if same_chars(slice_subrange(s, i, i + m), p) {
            return Some(i);
        }
        assert(!stands_at(s@, p@, i as int));
        if i == n {
            assert(find_text(s@, p@, n + 1) is None);
            return None;
        }
        i += 1;
    }
    proof {
        find_text_is_first(s@, p@, i as int);
    }
    None
}

fn same_bytes(a: &[u8], b: &[u8]) -> (r: bool)
    ensures
        r == (a@ == b@),
{
    if a.len() != b.len() {
        return false;
    }
    let mut i: usize = 0;
    while i < a.len()
        invariant
            a@.len() == b@.len(),
            i <= a@.len(),
            forall|k: int| 0 <= k < i ==> a@[k] == b@[k],
        decreases a@.len() - i,
    {
        if a[i] != b[i] {
            assert(a@[i as int] != b@[i as int]);
            return false;
        }
        i += 1;
    }
    assert(a@ =~= b@);
    true
}

/// Finds the first occurrence of a run of bytes.
pub fn search_bytes(s: &[u8], p: &[u8]) -> (r: Option<usize>)
    ensures
        match r {
            Some(k) => find_text(s@, p@, 0) == Some(k as int) && k + p@.len() <= s@.len(),
            None => find_text(s@, p@, 0) is None,
        },
{
    let n: usize = s.len();
    let m: usize = p.len();
    let mut i: usize = 0;
    while m <= n - i
        invariant
            i <= n,
            n == s@.len(),
            m == p@.len(),
            find_text(s@, p@, 0) == find_text(s@, p@, i as int),
        decreases n - i,
    {
        if same_bytes(slice_subrange(s, i, i + m), p) {
            return Some(i);
        }
        assert(!stands_at(s@, p@, i as int));
        if i == n {
            assert(find_text(s@, p@, n + 1) is None);
            return None;
        }
        i += 1;
    }
    proof {
        find_text_is_first(s@, p@, i as int);
    }
    None
}

/// Whether `p` occurs in `s`.
pub open spec fn contains_text(s: Seq<char>, p: Seq<char>) -> bool {
    find_text(s, p, 0) is Some
}

/// Whether a text occurs in another.
pub fn has_text(s: &[char], p: &[char]) -> (r: bool)
    ensures
        r == contains_text(s@, p@),
{
    search_text(s, p, 0).is_some()
}

/// `s` without any number of leading copies of `p`.
pub open spec fn strip_all(s: Seq<char>, p: Seq<char>) -> Seq<char>
    decreases s.len(),
{
    if p.len() > 0 && text::starts_with(s, p) {
        strip_all(rest(s, p.len() as int), p)
    } else {
        s
    }
}

/// Drops any number of leading copies of `p`.
pub fn without_prefixes(s: &[char], p: &[char]) -> (r: Vec<char>)
    ensures
        r@ == strip_all(s@, p@),
{
    let mut pos: usize = 0;
    assert(rest(s@, 0) =~= s@);
    while p.len() > 0 && pos <= s.len() && has_prefix(slice_subrange(s, pos, s.len()), p)
        invariant
            pos <= s@.len(),
            strip_all(s@, p@) == strip_all(rest(s@, pos as int), p@),
        decreases s@.len() - pos,
    {
        proof {
            let t = rest(s@, pos as int);
            assert(text::starts_with(t, p@));
            assert(rest(t, p@.len() as int) =~= rest(s@, pos + p@.len()));
        }
        pos += p.len();
    }
    copy_chars(s, pos, s.len())
}

/// Value of the first parameter that starts with `key`, among the parts of `s`
/// that semicolons separate; white space around the parts and the value does
/// not count.
pub open spec fn param_value(s: Seq<char>, key: Seq<char>) -> Option<Seq<char>>
    decreases s.len(),
    via param_value_terminates
{
    let k = text::find_char(s, ';', 0);
    let part = text::trim(s.subrange(0, k));
    if text::starts_with(part, key) {
        Some(text::trim(rest(part, key.len() as int)))
    } else if k < s.len() {
        param_value(rest(s, k + 1), key)
    } else {
        None
    }
}

#[via_fn]
proof fn param_value_terminates(s: Seq<char>, key: Seq<char>) {
    text::find_char_is_first(s, ';', 0);
}

/// Looks up a parameter.
pub fn find_param(s: &[char], key: &[char]) -> (r: Option<Vec<char>>)
    ensures
        match r {
            Some(v) => param_value(s@, key@) == Some(v@),
            None => param_value(s@, key@) is None,
        },
{
    let mut pos: usize = 0;
    assert(rest(s@, 0) =~= s@);
    loop
        invariant
            pos <= s@.len(),
            param_value(s@, key@) == param_value(rest(s@, pos as int), key@),
        decreases s@.len() - pos,
    {
        let k: usize = find_char_from(s, ';', pos);
        let ghost t = rest(s@, pos as int);
        proof {
            find_char_in_rest(s@, ';', pos as int, pos as int);
            assert(t.subrange(0, k - pos) =~= s@.subrange(pos as int, k as int));
        }
        let part = trim_chars(slice_subrange(s, pos, k));
        if has_prefix(part, key) {
            let v = trim_chars(slice_subrange(part, key.len(), part.len()));
            return Some(copy_chars(v, 0, v.len()));
        }
        if k >= s.len() {
            return None;
        }
        assert(rest(t, k - pos + 1) =~= rest(s@, k + 1));
        pos = k + 1;
    }
}

/// The pieces of a text that a character separates.
pub open spec fn pieces(s: Seq<char>, c: char) -> Seq<Seq<char>>
    decreases s.len(),
    via pieces_terminates
{
    let k = text::find_char(s, c, 0);
    if k >= s.len() {
        seq![s]
    } else {
        seq![s.subrange(0, k)] + pieces(rest(s, k + 1), c)
    }
}

#[via_fn]
proof fn pieces_terminates(s: Seq<char>, c: char) {
    text::find_char_is_first(s, c, 0);
}

/// Cuts a text at each occurrence of a character.
pub fn split_char(s: &[char], c: char) -> (r: Vec<Vec<char>>)
    ensures
        views(r@) == pieces(s@, c),
        r@.len() > 0,
{
    let mut out: Vec<Vec<char>> = Vec::new();
    let mut pos: usize = 0;
    assert(rest(s@, 0) =~= s@);
    assert(views(out@) =~= Seq::<Seq<char>>::empty());
    assert(Seq::<Seq<char>>::empty() + pieces(s@, c) =~= pieces(s@, c));
    loop
        invariant_except_break
            pos <= s@.len(),
            pieces(s@, c) == views(out@) + pieces(rest(s@, pos as int), c),
        ensures
            views(out@) == pieces(s@, c),
            out@.len() > 0,
        decreases s@.len() - pos,
    {
        let k: usize = find_char_from(s, c, pos);
        let ghost t = rest(s@, pos as int);
        proof {
            find_char_in_rest(s@, c, pos as int, pos as int);
            assert(t.subrange(0, k - pos) =~= s@.subrange(pos as int, k as int));
        }
        let ghost before = views(out@);
        let l = copy_chars(s, pos, k);
        out.push(l);
        assert(views(out@) =~= before.push(l@));
        if k >= s.len() {
            assert(l@ =~= t);
            assert(before + seq![t] =~= before.push(t));
            break;
        }
        proof {
            assert(rest(t, k - pos + 1) =~= rest(s@, k + 1));
            assert(views(out@) + pieces(rest(s@, k + 1), c) =~= before + (seq![l@] + pieces(
                rest(s@, k + 1),
                c,
            )));
        }
        pos = k + 1;
    }
    out
}

/// `s` without leading copies of a character.
pub open spec fn strip_front(s: Seq<char>, c: char) -> Seq<char>
    decreases s.len(),
{
    if s.len() > 0 && s[0] == c {
        strip_front(s.drop_first(), c)
    } else {
        s
    }
}

/// `s` without trailing copies of a character.
pub open spec fn strip_back(s: Seq<char>, c: char) -> Seq<char>
    decreases s.len(),
{
    if s.len() > 0 && s.last() == c {
        strip_back(s.drop_last(), c)
    } else {
        s
    }
}

/// `s` without copies of a character at either end.
pub open spec fn strip_both(s: Seq<char>, c: char) -> Seq<char> {
    strip_back(strip_front(s, c), c)
}

/// Drops copies of a character at either end.
pub fn without_ends(s: &[char], c: char) -> (r: &[char])
    ensures
        r@ == strip_both(s@, c),
{
    let n: usize = s.len();
    let mut i: usize = 0;
    assert(s@.subrange(0, n as int) =~= s@);
    while i < n && s[i] == c
        invariant
            i <= n,
            n == s@.len(),
            strip_front(s@, c) == strip_front(s@.subrange(i as int, n as int), c),
        decreases n - i,
    {
        assert(s@.subrange(i as int, n as int).drop_first() =~= s@.subrange(i + 1, n as int));
        i += 1;
    }
    let mut j: usize = n;
    while i < j && s[j - 1] == c
        invariant
            i <= j <= n,
            n == s@.len(),
            strip_back(s@.subrange(i as int, n as int), c) == strip_back(
                s@.subrange(i as int, j as int),
                c,
            ),
        decreases j,
    {
        assert(s@.subrange(i as int, j as int).drop_last() =~= s@.subrange(i as int, j - 1));
        j -= 1;
    }
    slice_subrange(s, i, j)
}

} // verus!
