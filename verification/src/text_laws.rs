//! What holds of taking texts apart: lines, words and trimmed texts are found again in what they
//! were put together to.
use vstd::prelude::*;

use crate::text::{
    distinct, find, has_part, is_ws, join, lemma_distinct, lemma_find, lemma_find_is, lemma_minus,
    lemma_rfind_is, lemma_word_len, lines, minus, not_in, part_at, split_first, split_last,
    strip_cr, trim, trim_end, trim_start, word_len, words, Text,
};

verus! {

/// White space is the characters with the Unicode property of that name, and no other.
pub proof fn law_white_space(c: char)
    ensures
        is_ws(c) <==> seq![
            '\u{9}',
            '\u{a}',
            '\u{b}',
            '\u{c}',
            '\u{d}',
            '\u{20}',
            '\u{85}',
            '\u{a0}',
            '\u{1680}',
            '\u{2000}',
            '\u{2001}',
            '\u{2002}',
            '\u{2003}',
            '\u{2004}',
            '\u{2005}',
            '\u{2006}',
            '\u{2007}',
            '\u{2008}',
            '\u{2009}',
            '\u{200a}',
            '\u{2028}',
            '\u{2029}',
            '\u{202f}',
            '\u{205f}',
            '\u{3000}',
        ].contains(c),
{
    let all = seq![
        '\u{9}',
        '\u{a}',
        '\u{b}',
        '\u{c}',
        '\u{d}',
        '\u{20}',
        '\u{85}',
        '\u{a0}',
        '\u{1680}',
        '\u{2000}',
        '\u{2001}',
        '\u{2002}',
        '\u{2003}',
        '\u{2004}',
        '\u{2005}',
        '\u{2006}',
        '\u{2007}',
        '\u{2008}',
        '\u{2009}',
        '\u{200a}',
        '\u{2028}',
        '\u{2029}',
        '\u{202f}',
        '\u{205f}',
        '\u{3000}',
    ];
    if is_ws(c) {
        let u = c as u32;
        let k: int = if u <= 0x0d {
            u - 9
        } else if u == 0x20 {
            5
        } else if u == 0x85 {
            6
        } else if u == 0xa0 {
            7
        } else if u == 0x1680 {
            8
        } else if u <= 0x200a {
            9 + u - 0x2000
        } else if u == 0x2028 {
            20
        } else if u == 0x2029 {
            21
        } else if u == 0x202f {
            22
        } else if u == 0x205f {
            23
        } else {
            24
        };
        assert(0 <= k < 25);
        assert(all[k] == c);
    }
    if all.contains(c) {
        let k = choose|k: int| 0 <= k < all.len() && all[k] == c;
        assert(is_ws(all[k]));
    }
}

/// Whether a text is one word: not empty and without white space.
pub open spec fn is_word(t: Text) -> bool {
    t.len() > 0 && forall|i: int| 0 <= i < t.len() ==> !is_ws(#[trigger] t[i])
}

proof fn lemma_word_len_is(t: Text, n: int)
    requires
        0 <= n <= t.len(),
        forall|i: int| 0 <= i < n ==> !is_ws(#[trigger] t[i]),
        n < t.len() ==> is_ws(t[n]),
    ensures
        word_len(t) == n,
{
    lemma_word_len(t);
    if word_len(t) < n {
        assert(!is_ws(t[word_len(t)]));
    }
}

/// Words are what stands between white space: one before white space is the first, white space at
/// the start is passed over, and a word alone is the only one.
pub proof fn law_words(w: Text, c: char, t: Text)
    requires
        is_word(w),
        is_ws(c),
    ensures
        words(w + seq![c] + t) == seq![w] + words(t),
        words(seq![c] + t) == words(t),
        words(w) == seq![w],
        words(Seq::empty()) == Seq::<Text>::empty(),
{
    let a = w + seq![c] + t;
    assert forall|i: int| 0 <= i < w.len() implies !is_ws(#[trigger] a[i]) by {
        assert(a[i] == w[i]);
    }
    assert(a[w.len() as int] == c);
    lemma_word_len_is(a, w.len() as int);
    assert(a.take(w.len() as int) =~= w);
    let rest = a.skip(w.len() as int);
    assert(rest =~= seq![c] + t);
    assert(rest[0] == c);
    assert(rest.drop_first() =~= t);
    assert(words(rest) == words(t));
    assert(words(a) == seq![w] + words(rest));
    assert(!is_ws(a[0]));
    lemma_word_len_is(w, w.len() as int);
    assert(w.take(w.len() as int) =~= w);
    assert(w.skip(w.len() as int) =~= Seq::<char>::empty());
    assert(!is_ws(w[0]));
    assert(words(w) =~= seq![w] + words(Seq::<char>::empty()));
    assert(words(w) =~= seq![w]);
}

/// Lines end where a line feed stands, with or without a carriage return before it; the last one
/// needs no end, and nothing follows the end of the last one.
pub proof fn law_lines(l: Text, t: Text)
    requires
        !l.contains('\n'),
    ensures
        lines(l + seq!['\n'] + t) == seq![strip_cr(l)] + lines(t),
        l.len() > 0 ==> lines(l) == seq![l],
        lines(Seq::empty()) == Seq::<Text>::empty(),
        strip_cr(l + seq!['\r']) == l,
        l.len() == 0 || l.last() != '\r' ==> strip_cr(l) == l,
{
    let a = l + seq!['\n'] + t;
    let n = l.len() as int;
    assert forall|i: int| 0 <= i < n implies a[i] != '\n' by {
        assert(a[i] == l[i]);
    }
    lemma_find_is(a, '\n', n);
    assert(a.take(n) =~= l);
    assert(a.skip(n + 1) =~= t);
    lemma_find(l, '\n');
    if find(l, '\n') < l.len() {
        assert(l[find(l, '\n')] == '\n');
    }
    assert((l + seq!['\r']).drop_last() =~= l);
}

/// White space around a text is taken off, all of it, and nothing else.
pub proof fn law_trim(a: Text, t: Text, b: Text)
    requires
        forall|i: int| 0 <= i < a.len() ==> is_ws(#[trigger] a[i]),
        forall|i: int| 0 <= i < b.len() ==> is_ws(#[trigger] b[i]),
        t.len() > 0,
        !is_ws(t[0]),
        !is_ws(t.last()),
    ensures
        trim(a + t + b) == t,
        trim(a) == Seq::<char>::empty(),
{
    lemma_trim_start(a, t + b);
    assert(a + t + b =~= a + (t + b));
    assert((t + b)[0] == t[0]);
    lemma_trim_end(t, b);
    lemma_trim_blank(a);
}

proof fn lemma_trim_start(a: Text, t: Text)
    requires
        forall|i: int| 0 <= i < a.len() ==> is_ws(#[trigger] a[i]),
        t.len() > 0 && !is_ws(t[0]),
    ensures
        trim_start(a + t) == t,
    decreases a.len(),
{
    if a.len() > 0 {
        let b = a.drop_first();
        assert forall|i: int| 0 <= i < b.len() implies is_ws(#[trigger] b[i]) by {
            assert(b[i] == a[i + 1]);
        }
        lemma_trim_start(b, t);
        assert((a + t).drop_first() =~= b + t);
        assert(is_ws(a[0]));
        assert((a + t)[0] == a[0]);
    } else {
        assert(a + t =~= t);
    }
}

proof fn lemma_trim_blank(a: Text)
    requires
        forall|i: int| 0 <= i < a.len() ==> is_ws(#[trigger] a[i]),
    ensures
        trim(a) == Seq::<char>::empty(),
    decreases a.len(),
{
    if a.len() > 0 {
        let b = a.drop_first();
        assert forall|i: int| 0 <= i < b.len() implies is_ws(#[trigger] b[i]) by {
            assert(b[i] == a[i + 1]);
        }
        lemma_trim_blank(b);
        assert(is_ws(a[0]));
        assert(trim_start(a) == trim_start(b));
    } else {
        assert(a =~= Seq::<char>::empty());
    }
}

proof fn lemma_trim_end(t: Text, b: Text)
    requires
        forall|i: int| 0 <= i < b.len() ==> is_ws(#[trigger] b[i]),
        t.len() > 0 && !is_ws(t.last()),
    ensures
        trim_end(t + b) == t,
    decreases b.len(),
{
    if b.len() > 0 {
        let a = b.drop_last();
        assert forall|i: int| 0 <= i < a.len() implies is_ws(#[trigger] a[i]) by {
            assert(a[i] == b[i]);
        }
        lemma_trim_end(t, a);
        assert((t + b).drop_last() =~= t + a);
        assert((t + b).last() == b[b.len() - 1]);
        assert(is_ws(b[b.len() - 1]));
    } else {
        assert(t + b =~= t);
    }
}

/// A text is found wherever it stands in another.
pub proof fn law_part_is_found(a: Text, p: Text, b: Text)
    ensures
        has_part(a + p + b, p),
{
    let t = a + p + b;
    assert(t.subrange(a.len() as int, (a.len() + p.len()) as int) =~= p);
    assert(part_at(t, p, a.len() as int));
}

/// A text that is found in another one stands in it, with something before it and after it, which is
/// returned.
pub proof fn law_found_part_stands_there(t: Text, p: Text) -> (r: (Text, Text))
    requires
        has_part(t, p),
    ensures
        t == r.0 + p + r.1,
{
    let i = choose|i: int| #[trigger] part_at(t, p, i);
    let r = (t.take(i), t.skip(i + p.len()));
    assert(t =~= r.0 + t.subrange(i, i + p.len()) + r.1);
    r
}

/// A text splits at the first, or at the last, of the characters looked for.
pub proof fn law_split_in_two(a: Text, c: char, b: Text)
    ensures
        !a.contains(c) ==> split_first(a + seq![c] + b, c) == Some((a, b)),
        !b.contains(c) ==> split_last(a + seq![c] + b, c) == Some((a, b)),
        !a.contains(c) ==> split_first(a, c) is None && split_last(a, c) is None,
{
    let t = a + seq![c] + b;
    let n = a.len() as int;
    assert(t.take(n) =~= a);
    assert(t.skip(n + 1) =~= b);
    assert(t[n] == c);
    if !a.contains(c) {
        assert forall|i: int| 0 <= i < n implies t[i] != c by {
            assert(t[i] == a[i]);
        }
        lemma_find_is(t, c, n);
        lemma_find_is(a, c, n);
        lemma_rfind_is(a, c, -1);
    }
    if !b.contains(c) {
        assert forall|i: int| n < i < t.len() implies t[i] != c by {
            assert(t[i] == b[i - n - 1]);
        }
        lemma_rfind_is(t, c, n);
    }
}

/// What one list has more than another is just what is in the first and not in the second, in the
/// order of the first.
pub proof fn law_difference(a: Seq<Text>, b: Seq<Text>, x: Text)
    ensures
        minus(a, b).contains(x) <==> a.contains(x) && !b.contains(x),
        minus(a.push(x), b) == (if b.contains(x) {
            minus(a, b)
        } else {
            minus(a, b).push(x)
        }),
{
    lemma_minus(a, b);
    if minus(a, b).contains(x) {
        let i = choose|i: int| 0 <= i < minus(a, b).len() && minus(a, b)[i] == x;
        assert(a.contains(minus(a, b)[i]));
    }
    if a.contains(x) && !b.contains(x) {
        assert(not_in(b)(x));
        a.lemma_filter_contains(not_in(b), choose|i: int| 0 <= i < a.len() && a[i] == x);
    }
    reveal(Seq::filter);
    assert(a.push(x).drop_last() =~= a);
    assert(not_in(b)(x) == !b.contains(x));
}

/// A list without repetitions holds what the list holds, each once, where it first stands.
pub proof fn law_distinct(list: Seq<Text>, x: Text)
    ensures
        distinct(list).contains(x) <==> list.contains(x),
        distinct(list).no_duplicates(),
        distinct(list.push(x)) == (if list.contains(x) {
            distinct(list)
        } else {
            distinct(list).push(x)
        }),
{
    lemma_distinct(list);
    assert(list.push(x).drop_last() =~= list);
}

/// A list that is joined grows by the separator and the new text.
pub proof fn law_join(list: Seq<Text>, x: Text, sep: Text)
    ensures
        join(Seq::empty(), sep) == Seq::<char>::empty(),
        join(seq![x], sep) == x,
        list.len() > 0 ==> join(list.push(x), sep) == join(list, sep) + sep + x,
{
    assert(list.push(x).drop_last() =~= list);
}

} // verus!
