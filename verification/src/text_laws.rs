//! What reading a text promises: white space, numbers, words and pieces.
use crate::scan;
use crate::text;
use vstd::prelude::*;

verus! {

/// Blanks, tabs and line ends are white space; the visible ASCII characters are not.
pub proof fn visible_characters_are_no_space(c: char)
    ensures
        9 <= c as int <= 13 || c as int == 32 ==> text::is_space(c),
        33 <= c as int <= 126 ==> !text::is_space(c),
{
}

/// Whether a text is nothing but white space.
pub open spec fn blank(s: Seq<char>) -> bool {
    forall|i: int| 0 <= i < s.len() ==> text::is_space(#[trigger] s[i])
}

/// Trimming takes the white space on either side, and leaves what is between as it is.
pub proof fn trimming_takes_the_space_around(a: Seq<char>, t: Seq<char>, b: Seq<char>)
    requires
        blank(a),
        blank(b),
        t.len() > 0 ==> !text::is_space(t[0]) && !text::is_space(t.last()),
    ensures
        text::trim(a + t + b) == t,
{
    front_goes(a, t + b);
    assert(a + t + b =~= a + (t + b));
    if t.len() > 0 {
        assert((t + b)[0] == t[0]);
        assert(text::trim_start(t + b) == t + b);
        back_goes(t, b);
        assert(text::trim_end(t) == t);
    } else {
        assert(t + b =~= b + Seq::<char>::empty());
        front_goes(b, Seq::empty());
        assert(t =~= Seq::empty());
    }
}

proof fn front_goes(a: Seq<char>, t: Seq<char>)
    requires
        blank(a),
    ensures
        text::trim_start(a + t) == text::trim_start(t),
    decreases a.len(),
{
    if a.len() > 0 {
        assert((a + t)[0] == a[0]);
        assert((a + t).drop_first() =~= a.drop_first() + t);
        assert forall|i: int| 0 <= i < a.drop_first().len() implies text::is_space(
            #[trigger] a.drop_first()[i],
        ) by {
            assert(a.drop_first()[i] == a[i + 1]);
        }
        front_goes(a.drop_first(), t);
    } else {
        assert(a + t =~= t);
    }
}

proof fn back_goes(t: Seq<char>, b: Seq<char>)
    requires
        blank(b),
    ensures
        text::trim_end(t + b) == text::trim_end(t),
    decreases b.len(),
{
    if b.len() > 0 {
        assert((t + b).last() == b.last());
        assert((t + b).drop_last() =~= t + b.drop_last());
        assert forall|i: int| 0 <= i < b.drop_last().len() implies text::is_space(
            #[trigger] b.drop_last()[i],
        ) by {
            assert(b.drop_last()[i] == b[i]);
        }
        back_goes(t, b.drop_last());
    } else {
        assert(t + b =~= t);
    }
}

/// Padding of zero characters and blanks at the end of a text does not count; anything
/// before it does.
pub proof fn padding_goes(t: Seq<char>, b: Seq<char>)
    requires
        forall|i: int| 0 <= i < b.len() ==> #[trigger] b[i] == '\0' || b[i] == ' ',
        t.len() > 0 ==> t.last() != '\0' && t.last() != ' ',
    ensures
        text::trim_padding(t + b) == t,
    decreases b.len(),
{
    if b.len() > 0 {
        assert((t + b).last() == b.last());
        assert((t + b).drop_last() =~= t + b.drop_last());
        assert forall|i: int| 0 <= i < b.drop_last().len() implies #[trigger] b.drop_last()[i]
            == '\0' || b.drop_last()[i] == ' ' by {
            assert(b.drop_last()[i] == b[i]);
        }
        padding_goes(t, b.drop_last());
    } else {
        assert(t + b =~= t);
    }
}

/// Case does not matter between the same letters, and nothing else is taken for the same.
pub proof fn letters_match_without_case(a: char, b: char)
    ensures
        text::lower(a) == text::lower(b) <==> a == b || (65 <= a as int <= 90 && b as int == a as int
            + 32) || (65 <= b as int <= 90 && a as int == b as int + 32),
{
}

/// A number is read as it is written, with or without a plus sign in front, as long as it
/// is not above the limit. What is empty, or holds anything but digits, is no number.
pub proof fn numbers_are_read_as_written(n: nat, max: nat, s: Seq<char>)
    ensures
        n <= max ==> text::bounded_value(text::decimal(n), max) == Some(n),
        n <= max ==> text::bounded_value(seq!['+'] + text::decimal(n), max) == Some(n),
        n > max ==> text::bounded_value(text::decimal(n), max) is None,
        text::bounded_value(Seq::empty(), max) is None,
        text::bounded_value(s, max) is Some ==> forall|i: int|
            0 <= i < s.len() ==> 48 <= #[trigger] s[i] as int <= 57 || (i == 0 && s[i] == '+'),
        n < 10 ==> text::decimal(n) == seq![(48 + n) as char],
        n >= 10 ==> text::decimal(n) == text::decimal(n / 10) + text::decimal(n % 10),
{
    text::decimal_round_trip(n);
    let d = text::decimal(n);
    assert((seq!['+'] + d).drop_first() =~= d);
    assert(text::is_digit(d[0]));
    if text::bounded_value(s, max) is Some {
        assert forall|i: int| 0 <= i < s.len() implies 48 <= #[trigger] s[i] as int <= 57 || (i == 0
            && s[i] == '+') by {
            if s[0] == '+' {
                if i > 0 {
                    assert(text::is_digit(s.drop_first()[i - 1]));
                }
            } else {
                assert(text::is_digit(s[i]));
            }
        }
    }
    if n >= 10 {
        assert(text::decimal(n) =~= text::decimal(n / 10) + text::decimal(n % 10));
    }
}

/// The pieces of a text, put together again with what parted them.
pub open spec fn rejoined(p: Seq<Seq<char>>, c: char) -> Seq<char>
    decreases p.len(),
{
    if p.len() == 0 {
        Seq::empty()
    } else if p.len() == 1 {
        p[0]
    } else {
        p[0] + seq![c] + rejoined(p.drop_first(), c)
    }
}

/// A text is cut at every occurrence of a character and nowhere else: no piece holds it,
/// and the pieces put together again are the text.
pub proof fn pieces_make_up_the_text(s: Seq<char>, c: char)
    ensures
        scan::pieces(s, c).len() > 0,
        rejoined(scan::pieces(s, c), c) == s,
        forall|i: int| 0 <= i < scan::pieces(s, c).len() ==> !(#[trigger] scan::pieces(s, c)[i]).contains(c),
    decreases s.len(),
{
    let k = text::find_char(s, c, 0);
    text::find_char_is_first(s, c, 0);
    let all = scan::pieces(s, c);
    if k >= s.len() {
        assert(all == seq![s]);
    } else {
        let head = s.subrange(0, k);
        let tail = scan::rest(s, k + 1);
        pieces_make_up_the_text(tail, c);
        let more = scan::pieces(tail, c);
        assert(all == seq![head] + more);
        assert(all.drop_first() =~= more);
        assert(s =~= head + seq![c] + tail);
        assert forall|i: int| 0 <= i < all.len() implies !(#[trigger] all[i]).contains(c) by {
            if i > 0 {
                assert(all[i] == more[i - 1]);
            } else {
                assert(all[0] == head);
            }
        }
    }
}

/// Words are what white space parts: a text that starts with a word, perhaps behind white
/// space, has it as its first word, and the words of the rest behind.
pub proof fn words_are_parted_by_space(a: Seq<char>, w: Seq<char>, c: char, t: Seq<char>)
    requires
        blank(a),
        w.len() > 0,
        forall|i: int| 0 <= i < w.len() ==> !text::is_space(#[trigger] w[i]),
        text::is_space(c),
    ensures
        scan::words(a).len() == 0,
        scan::words(a + w) == seq![w],
        scan::words(a + w + seq![c] + t) == seq![w] + scan::words(t),
{
    let n = a.len() as int;
    let e = n + w.len();
    let one = a + w;
    skipped(a, 0, n);
    assert forall|i: int| 0 <= i < n implies text::is_space(#[trigger] one[i]) by {
        assert(one[i] == a[i]);
    }
    assert(one[n] == w[0]);
    skipped(one, 0, n);
    assert forall|i: int| n <= i < e implies !text::is_space(#[trigger] one[i]) by {
        assert(one[i] == w[i - n]);
    }
    spanned(one, n, e);
    assert(one.subrange(n, e) =~= w);
    assert(scan::words_from(one, e) =~= Seq::<Seq<char>>::empty());
    assert(scan::words(one) =~= seq![w]);
    let s = a + w + seq![c] + t;
    assert forall|i: int| 0 <= i < n implies text::is_space(#[trigger] s[i]) by {
        assert(s[i] == a[i]);
    }
    assert(s[n] == w[0]);
    skipped(s, 0, n);
    assert forall|i: int| n <= i < e implies !text::is_space(#[trigger] s[i]) by {
        assert(s[i] == w[i - n]);
    }
    assert(s[e] == c);
    spanned(s, n, e);
    assert(s.subrange(n, e) =~= w);
    words_behind(s, t, e + 1, 0);
    assert(scan::words_from(s, e) == scan::words_from(s, e + 1)) by {
        assert(scan::skip_space(s, e) == scan::skip_space(s, e + 1));
    }
}

proof fn skipped(s: Seq<char>, from: int, to: int)
    requires
        0 <= from <= to <= s.len(),
        forall|i: int| from <= i < to ==> text::is_space(#[trigger] s[i]),
        to < s.len() ==> !text::is_space(s[to]),
    ensures
        scan::skip_space(s, from) == to,
    decreases to - from,
{
    if from < to {
        assert(text::is_space(s[from]));
        skipped(s, from + 1, to);
    }
}

proof fn spanned(s: Seq<char>, from: int, to: int)
    requires
        0 <= from <= to <= s.len(),
        forall|i: int| from <= i < to ==> !text::is_space(#[trigger] s[i]),
        to < s.len() ==> text::is_space(s[to]),
    ensures
        scan::find_space(s, from) == to,
    decreases to - from,
{
    if from < to {
        assert(!text::is_space(s[from]));
        spanned(s, from + 1, to);
    }
}

/// Reading a text from a place on is reading what stands there.
proof fn words_behind(s: Seq<char>, t: Seq<char>, at: int, i: int)
    requires
        0 <= at,
        0 <= i <= t.len(),
        s.len() == at + t.len(),
        forall|k: int| 0 <= k < t.len() ==> #[trigger] t[k] == s[at + k],
    ensures
        scan::words_from(s, at + i) == scan::words_from(t, i),
    decreases t.len() - i,
{
    shifted(s, t, at, i);
    scan::space_bounds(t, i);
    let a = scan::skip_space(t, i);
    if a < t.len() {
        assert(t[a] == s[at + a]);
        scan::space_bounds(t, a);
        shifted(s, t, at, a);
        let b = scan::find_space(t, a);
        assert(!text::is_space(t[a]));
        assert(b > a);
        assert(s.subrange(at + a, at + b) =~= t.subrange(a, b));
        words_behind(s, t, at, b);
    }
}

proof fn shifted(s: Seq<char>, t: Seq<char>, at: int, i: int)
    requires
        0 <= at,
        0 <= i <= t.len(),
        s.len() == at + t.len(),
        forall|k: int| 0 <= k < t.len() ==> #[trigger] t[k] == s[at + k],
    ensures
        scan::skip_space(s, at + i) == at + scan::skip_space(t, i),
        scan::find_space(s, at + i) == at + scan::find_space(t, i),
    decreases t.len() - i,
{
    if i < t.len() {
        assert(t[i] == s[at + i]);
        shifted(s, t, at, i + 1);
    }
}

/// A text is cut into lines at its line feeds, each without the carriage return before it.
pub proof fn lines_end_at_line_feeds(a: Seq<char>, b: Seq<char>)
    requires
        !a.contains('\n'),
        a.len() > 0 ==> a.last() != '\r',
    ensures
        scan::lines(a + seq!['\n'] + b) == seq![a] + scan::lines(b),
        scan::lines(a + seq!['\r', '\n'] + b) == seq![a] + scan::lines(b),
        scan::lines(a) == seq![a],
{
    let s = a + seq!['\n'] + b;
    let t = a + seq!['\r', '\n'] + b;
    let n = a.len() as int;
    assert(s[n] == '\n' && t[n] == '\r' && t[n + 1] == '\n');
    assert forall|i: int| 0 <= i < n implies a[i] != '\n' && s[i] == a[i] && t[i] == a[i] by {
        assert(a.contains(a[i]));
    }
    feed_found(s, n);
    feed_found(t, n + 1);
    feed_found(a, n);
    assert(s.subrange(0, n) =~= a);
    assert(scan::rest(s, n + 1) =~= b);
    let u = t.subrange(0, n + 1);
    assert(u.last() == '\r');
    assert(u.drop_last() =~= a);
    assert(scan::rest(t, n + 2) =~= b);
}

proof fn feed_found(s: Seq<char>, k: int)
    requires
        0 <= k <= s.len(),
        forall|i: int| 0 <= i < k ==> s[i] != '\n',
        k < s.len() ==> s[k] == '\n',
    ensures
        text::find_char(s, '\n', 0) == k,
{
    text::find_char_is_first(s, '\n', 0);
    let f = text::find_char(s, '\n', 0);
    if f < k {
        assert(s[f] != '\n');
    }
}

} // verus!
