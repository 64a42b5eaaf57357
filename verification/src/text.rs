//! Text as a sequence of characters: the handful of string operations that the command
//! outputs, environment values and addresses of this crate are read and written with.
use vstd::prelude::*;

verus! {

/// The characters of a text, in order.
pub type Text = Seq<char>;

/// `String::push` of the standard library appends the given character to the end of the string.
pub assume_specification[ String::push ](s: &mut String, c: char)
    ensures
        final(s)@ == old(s)@.push(c),
;

/// What `str::to_lowercase` gives: the lowercase equivalent of a text, by the Unicode derived
/// core property `Lowercase`, in no particular locale.
pub uninterp spec fn lowercase(t: Seq<char>) -> Seq<char>;

/// `str::to_lowercase` of the standard library. Its result is named, not described: the Unicode
/// tables behind it are left unsaid.
#[verifier::external_body]
fn std_to_lowercase(s: &str) -> (r: String)
    ensures
        r@ == lowercase(s@),
{
    s.to_lowercase()
}

/// The lowercase form of a text.
pub fn lowercase_of(s: &str) -> (r: String)
    ensures
        r@ == lowercase(s@),
{
    std_to_lowercase(s)
}

/// What `String::from_utf8_lossy` gives for bytes that come from outside.
pub uninterp spec fn utf8_lossy(bytes: Seq<u8>) -> Seq<char>;

/// `String::from_utf8_lossy` of the standard library: well-formed bytes are decoded as they are.
/// How many replacement characters stand for ill-formed bytes is left unsaid.
#[verifier::external_body]
fn std_from_utf8_lossy(bytes: &Vec<u8>) -> (r: String)
    ensures
        r@ == utf8_lossy(bytes@),
        vstd::utf8::valid_utf8(bytes@) ==> r@ == vstd::utf8::decode_utf8(bytes@),
{
    String::from_utf8_lossy(bytes).into_owned()
}

/// The text of command output, with ill-formed bytes replaced.
pub fn lossy_text(bytes: &Vec<u8>) -> (r: String)
    ensures
        r@ == utf8_lossy(bytes@),
        vstd::utf8::valid_utf8(bytes@) ==> r@ == vstd::utf8::decode_utf8(bytes@),
{
    std_from_utf8_lossy(bytes)
}

/// `std::str::from_utf8` of the standard library: the bytes are decoded if they are well-formed
/// UTF-8, and refused otherwise.
#[verifier::external_body]
fn std_from_utf8(bytes: &Vec<u8>) -> (r: Option<String>)
    ensures
        r is Some <==> vstd::utf8::valid_utf8(bytes@),
        r matches Some(s) ==> s@ == vstd::utf8::decode_utf8(bytes@),
{
    std::str::from_utf8(bytes).ok().map(String::from)
}

/// The text that the bytes encode, if they are well-formed UTF-8.
pub open spec fn strict_utf8(bytes: Seq<u8>) -> Option<Text> {
    if vstd::utf8::valid_utf8(bytes) {
        Some(vstd::utf8::decode_utf8(bytes))
    } else {
        None
    }
}

/// Decodes command output that has to be well-formed UTF-8.
pub fn strict_text(bytes: &Vec<u8>) -> (r: Option<String>)
    ensures
        r.deep_view() == strict_utf8(bytes@),
{
    std_from_utf8(bytes)
}

// ---------- Characters and pieces ----------

/// The characters of `s` as a vector.
pub fn chars_of(s: &str) -> (v: Vec<char>)
    ensures
        v@ == s@,
{
    let mut v: Vec<char> = Vec::new();
    for c in it: s.chars()
        invariant
            v@ == s@.take(it.index() as int),
            it.seq() == s@,
    {
        v.push(c);
    }
    v
}

/// The text of `chars[from..to]`.
pub fn string_of(chars: &Vec<char>, from: usize, to: usize) -> (r: String)
    requires
        from <= to <= chars@.len(),
    ensures
        r@ == chars@.subrange(from as int, to as int),
{
    let mut r = String::new();
    let mut i: usize = from;
    while i < to
        invariant
            from <= i <= to <= chars@.len(),
            r@ == chars@.subrange(from as int, i as int),
        decreases to - i,
    {
        r.push(chars[i]);
        i += 1;
        assert(r@ =~= chars@.subrange(from as int, i as int));
    }
    r
}

/// Whether two texts hold the same characters.
pub fn text_eq(a: &str, b: &str) -> (r: bool)
    ensures
        r == (a@ == b@),
{
    let x = chars_of(a);
    let y = chars_of(b);
    if x.len() != y.len() {
        return false;
    }
    let mut i: usize = 0;
    while i < x.len()
        invariant
            x@ == a@,
            y@ == b@,
            x@.len() == y@.len(),
            i <= x@.len(),
            forall|j: int| 0 <= j < i ==> x@[j] == y@[j],
        decreases x.len() - i,
    {
        if x[i] != y[i] {
            return false;
        }
        i += 1;
    }
    assert(a@ =~= b@);
    true
}

/// A text of its own with the characters of `s`.
pub fn owned(s: &str) -> (r: String)
    ensures
        r@ == s@,
{
    s.to_owned()
}

/// Where `c` first stands in `t`; `t.len()` if it does not.
pub open spec fn find(t: Text, c: char) -> int
    decreases t.len(),
{
    if t.len() == 0 || t[0] == c {
        0
    } else {
        1 + find(t.drop_first(), c)
    }
}

pub proof fn lemma_find(t: Text, c: char)
    ensures
        0 <= find(t, c) <= t.len(),
        forall|i: int| 0 <= i < find(t, c) ==> t[i] != c,
        find(t, c) < t.len() ==> t[find(t, c)] == c,
    decreases t.len(),
{
    if t.len() > 0 && t[0] != c {
        lemma_find(t.drop_first(), c);
        assert forall|i: int| 0 <= i < find(t, c) implies t[i] != c by {
            if i > 0 {
                assert(t.drop_first()[i - 1] != c);
            }
        }
    }
}

/// `n` is where `c` first stands in `t` if it stands there and nowhere before.
pub proof fn lemma_find_is(t: Text, c: char, n: int)
    requires
        0 <= n <= t.len(),
        forall|i: int| 0 <= i < n ==> t[i] != c,
        n < t.len() ==> t[n] == c,
    ensures
        find(t, c) == n,
{
    lemma_find(t, c);
}

/// Where `c` last stands in `t`; `-1` if it does not.
pub open spec fn rfind(t: Text, c: char) -> int
    decreases t.len(),
{
    if t.len() == 0 {
        -1
    } else if t.last() == c {
        t.len() - 1
    } else {
        rfind(t.drop_last(), c)
    }
}

pub proof fn lemma_rfind(t: Text, c: char)
    ensures
        -1 <= rfind(t, c) < t.len(),
        forall|i: int| rfind(t, c) < i < t.len() ==> t[i] != c,
        rfind(t, c) >= 0 ==> t[rfind(t, c)] == c,
    decreases t.len(),
{
    if t.len() > 0 && t.last() != c {
        lemma_rfind(t.drop_last(), c);
        assert forall|i: int| rfind(t, c) < i < t.len() implies t[i] != c by {
            if i < t.len() - 1 {
                assert(t.drop_last()[i] != c);
            }
        }
    }
}

pub proof fn lemma_rfind_is(t: Text, c: char, n: int)
    requires
        -1 <= n < t.len(),
        forall|i: int| n < i < t.len() ==> t[i] != c,
        n >= 0 ==> t[n] == c,
    ensures
        rfind(t, c) == n,
{
    lemma_rfind(t, c);
}

/// The first position of `c` at or after `from`.
pub fn position(chars: &Vec<char>, from: usize, c: char) -> (r: usize)
    requires
        from <= chars@.len(),
    ensures
        from <= r <= chars@.len(),
        r == from + find(chars@.skip(from as int), c),
{
    let mut i: usize = from;
    while i < chars.len() && chars[i] != c
        invariant
            from <= i <= chars@.len(),
            forall|j: int| from <= j < i ==> chars@[j] != c,
        decreases chars.len() - i,
    {
        i += 1;
    }
    proof {
        let s = chars@.skip(from as int);
        assert forall|k: int| 0 <= k < i - from implies s[k] != c by {
            assert(s[k] == chars@[from + k]);
        }
        lemma_find_is(s, c, i - from);
    }
    i
}

/// Whether the text holds the character.
pub fn contains_char(s: &str, c: char) -> (r: bool)
    ensures
        r == s@.contains(c),
{
    let chars = chars_of(s);
    let n = position(&chars, 0, c);
    proof {
        assert(chars@.skip(0) =~= chars@);
        lemma_find(s@, c);
        if n < chars@.len() {
            assert(s@[n as int] == c);
        }
    }
    n < chars.len()
}

/// The pieces of `t` between occurrences of `c`, as `str::split` gives them.
pub open spec fn split(t: Text, c: char) -> Seq<Text>
    decreases t.len(),
{
    let n = find(t, c);
    if 0 <= n < t.len() {
        seq![t.take(n)] + split(t.skip(n + 1), c)
    } else {
        seq![t]
    }
}

/// Splits a text at every occurrence of a character.
pub fn split_on(s: &str, c: char) -> (r: Vec<String>)
    ensures
        r.deep_view() == split(s@, c),
{
    let chars = chars_of(s);
    let mut out: Vec<String> = Vec::new();
    let mut start: usize = 0;
    proof {
        assert(s@.skip(0) =~= s@);
        assert(out.deep_view() + split(s@, c) =~= split(s@, c));
    }
    loop
        invariant
            chars@ == s@,
            start <= chars@.len(),
            out.deep_view() + split(s@.skip(start as int), c) == split(s@, c),
        decreases chars.len() - start,
    {
        let n = position(&chars, start, c);
        let ghost before = out.deep_view();
        let ghost rest = s@.skip(start as int);
        if n == chars.len() {
            out.push(string_of(&chars, start, n));
            proof {
                assert(s@.subrange(start as int, n as int) =~= rest);
                assert(out.deep_view() =~= before + seq![rest]);
            }
            return out;
        }
        out.push(string_of(&chars, start, n));
        proof {
            assert(s@.subrange(start as int, n as int) =~= rest.take(n - start));
            assert(rest.skip(n - start + 1) =~= s@.skip(n + 1));
            assert(out.deep_view() =~= before + seq![rest.take(n - start)]);
            assert(out.deep_view() + split(s@.skip(n + 1), c) =~= before + (seq![
                rest.take(n - start),
            ] + split(s@.skip(n + 1), c)));
        }
        start = n + 1;
    }
}

/// The two sides of the first occurrence of `c`, if there is one.
pub open spec fn split_first(t: Text, c: char) -> Option<(Text, Text)> {
    let n = find(t, c);
    if n < t.len() {
        Some((t.take(n), t.skip(n + 1)))
    } else {
        None
    }
}

/// Splits a text at the first occurrence of a character.
pub fn split_once(s: &str, c: char) -> (r: Option<(String, String)>)
    ensures
        r.deep_view() == split_first(s@, c),
{
    let chars = chars_of(s);
    let n = position(&chars, 0, c);
    proof {
        assert(s@.skip(0) =~= s@);
    }
    if n < chars.len() {
        let a = string_of(&chars, 0, n);
        let b = string_of(&chars, n + 1, chars.len());
        proof {
            assert(a@ =~= s@.take(n as int));
            assert(b@ =~= s@.skip(n + 1));
        }
        Some((a, b))
    } else {
        None
    }
}

/// The two sides of the last occurrence of `c`, if there is one.
pub open spec fn split_last(t: Text, c: char) -> Option<(Text, Text)> {
    let n = rfind(t, c);
    if n >= 0 {
        Some((t.take(n), t.skip(n + 1)))
    } else {
        None
    }
}

/// Splits a text at the last occurrence of a character.
pub fn rsplit_once(s: &str, c: char) -> (r: Option<(String, String)>)
    ensures
        r.deep_view() == split_last(s@, c),
{
    let chars = chars_of(s);
    let mut i: usize = chars.len();
    while i > 0
        invariant
            chars@ == s@,
            i <= chars@.len(),
            forall|j: int| i <= j < chars@.len() ==> chars@[j] != c,
        decreases i,
    {
        if chars[i - 1] == c {
            let a = string_of(&chars, 0, i - 1);
            let b = string_of(&chars, i, chars.len());
            proof {
                lemma_rfind_is(s@, c, i - 1);
                assert(a@ =~= s@.take(i - 1));
                assert(b@ =~= s@.skip(i as int));
            }
            return Some((a, b));
        }
        i -= 1;
    }
    proof {
        lemma_rfind_is(s@, c, -1);
    }
    None
}

// ---------- Lines ----------

/// `t` without one trailing carriage return.
pub open spec fn strip_cr(t: Text) -> Text {
    if t.len() > 0 && t.last() == '\r' {
        t.drop_last()
    } else {
        t
    }
}

/// The lines of a text, as `str::lines` gives them: ended by `\n` or `\r\n`, the last ending being
/// optional.
pub open spec fn lines(t: Text) -> Seq<Text>
    decreases t.len(),
{
    let n = find(t, '\n');
    if t.len() == 0 {
        seq![]
    } else if 0 <= n < t.len() {
        seq![strip_cr(t.take(n))] + lines(t.skip(n + 1))
    } else {
        seq![t]
    }
}

/// Splits a text into its lines.
pub fn lines_of(s: &str) -> (r: Vec<String>)
    ensures
        r.deep_view() == lines(s@),
{
    let chars = chars_of(s);
    let mut out: Vec<String> = Vec::new();
    let mut start: usize = 0;
    proof {
        assert(s@.skip(0) =~= s@);
        assert(out.deep_view() + lines(s@) =~= lines(s@));
    }
    while start < chars.len()
        invariant
            chars@ == s@,
            start <= chars@.len(),
            out.deep_view() + lines(s@.skip(start as int)) == lines(s@),
        decreases chars.len() - start,
    {
        let n = position(&chars, start, '\n');
        let ghost before = out.deep_view();
        let ghost rest = s@.skip(start as int);
        if n == chars.len() {
            out.push(string_of(&chars, start, n));
            proof {
                assert(s@.subrange(start as int, n as int) =~= rest);
                assert(out.deep_view() =~= before + seq![rest]);
            }
            return out;
        }
        let end = if n > start && chars[n - 1] == '\r' {
            n - 1
        } else {
            n
        };
        out.push(string_of(&chars, start, end));
        proof {
            let line = rest.take(n - start);
            assert(s@.subrange(start as int, n as int) =~= line);
            assert(s@.subrange(start as int, end as int) =~= strip_cr(line));
            assert(rest.skip(n - start + 1) =~= s@.skip(n + 1));
            assert(out.deep_view() =~= before + seq![strip_cr(line)]);
            assert(out.deep_view() + lines(s@.skip(n + 1)) =~= before + (seq![strip_cr(line)]
                + lines(s@.skip(n + 1))));
        }
        start = n + 1;
    }
    proof {
        assert(s@.skip(start as int) =~= Seq::<char>::empty());
        assert(out.deep_view() + lines(s@.skip(start as int)) =~= out.deep_view());
    }
    out
}

// ---------- White space ----------

/// The characters with the Unicode property `White_Space`.
pub open spec fn is_ws(c: char) -> bool {
    let u = c as u32;
    ||| 0x09 <= u <= 0x0d
    ||| u == 0x20
    ||| u == 0x85
    ||| u == 0xa0
    ||| u == 0x1680
    ||| 0x2000 <= u <= 0x200a
    ||| u == 0x2028
    ||| u == 0x2029
    ||| u == 0x202f
    ||| u == 0x205f
    ||| u == 0x3000
}

/// Whether a character is white space.
pub fn is_white_space(c: char) -> (r: bool)
    ensures
        r == is_ws(c),
{
    let u = c as u32;
    (0x09 <= u && u <= 0x0d) || u == 0x20 || u == 0x85 || u == 0xa0 || u == 0x1680 || (0x2000 <= u
        && u <= 0x200a) || u == 0x2028 || u == 0x2029 || u == 0x202f || u == 0x205f || u == 0x3000
}

/// `t` from its first character on that is not white space.
pub open spec fn trim_start(t: Text) -> Text
    decreases t.len(),
{
    if t.len() > 0 && is_ws(t[0]) {
        trim_start(t.drop_first())
    } else {
        t
    }
}

/// `t` up to its last character that is not white space.
pub open spec fn trim_end(t: Text) -> Text
    decreases t.len(),
{
    if t.len() > 0 && is_ws(t.last()) {
        trim_end(t.drop_last())
    } else {
        t
    }
}

/// `t` without white space at either end.
pub open spec fn trim(t: Text) -> Text {
    trim_end(trim_start(t))
}

/// A text without any white space is left as it is.
pub proof fn lemma_trim_plain(t: Text)
    requires
        forall|i: int| 0 <= i < t.len() ==> !is_ws(#[trigger] t[i]),
    ensures
        trim(t) == t,
{
}

/// Removes white space at both ends.
pub fn trimmed(s: &str) -> (r: String)
    ensures
        r@ == trim(s@),
{
    let chars = chars_of(s);
    let mut from: usize = 0;
    proof {
        assert(s@.skip(0) =~= s@);
    }
    while from < chars.len() && is_white_space(chars[from])
        invariant
            chars@ == s@,
            from <= chars@.len(),
            trim_start(s@.skip(from as int)) == trim_start(s@),
        decreases chars.len() - from,
    {
        assert(s@.skip(from as int).drop_first() =~= s@.skip(from + 1));
        from += 1;
    }
    let mut to: usize = chars.len();
    let ghost head = s@.skip(from as int);
    assert(s@.subrange(from as int, to as int) =~= head);
    while to > from && is_white_space(chars[to - 1])
        invariant
            chars@ == s@,
            from <= to <= chars@.len(),
            head == trim_start(s@),
            trim_end(s@.subrange(from as int, to as int)) == trim_end(head),
        decreases to - from,
    {
        assert(s@.subrange(from as int, to as int).drop_last() =~= s@.subrange(
            from as int,
            to - 1,
        ));
        to -= 1;
    }
    string_of(&chars, from, to)
}

/// How many characters precede the first white space of `t`.
pub open spec fn word_len(t: Text) -> int
    decreases t.len(),
{
    if t.len() == 0 || is_ws(t[0]) {
        0
    } else {
        1 + word_len(t.drop_first())
    }
}

pub proof fn lemma_word_len(t: Text)
    ensures
        0 <= word_len(t) <= t.len(),
        forall|i: int| 0 <= i < word_len(t) ==> !is_ws(t[i]),
        word_len(t) < t.len() ==> is_ws(t[word_len(t)]),
    decreases t.len(),
{
    if t.len() > 0 && !is_ws(t[0]) {
        lemma_word_len(t.drop_first());
        assert forall|i: int| 0 <= i < word_len(t) implies !is_ws(t[i]) by {
            if i > 0 {
                assert(!is_ws(t.drop_first()[i - 1]));
            }
        }
    }
}

/// The words of a text between stretches of white space, as `str::split_whitespace` gives them.
pub open spec fn words(t: Text) -> Seq<Text>
    decreases t.len(),
{
    let n = word_len(t);
    if t.len() == 0 {
        seq![]
    } else if is_ws(t[0]) {
        words(t.drop_first())
    } else if 0 < n <= t.len() {
        seq![t.take(n)] + words(t.skip(n))
    } else {
        seq![]
    }
}

/// Splits a text into its words.
pub fn words_of(s: &str) -> (r: Vec<String>)
    ensures
        r.deep_view() == words(s@),
{
    let chars = chars_of(s);
    let mut out: Vec<String> = Vec::new();
    let mut start: usize = 0;
    proof {
        assert(s@.skip(0) =~= s@);
        assert(out.deep_view() + words(s@) =~= words(s@));
    }
    while start < chars.len()
        invariant
            chars@ == s@,
            start <= chars@.len(),
            out.deep_view() + words(s@.skip(start as int)) == words(s@),
        decreases chars.len() - start,
    {
        let ghost before = out.deep_view();
        let ghost rest = s@.skip(start as int);
        if is_white_space(chars[start]) {
            assert(rest.drop_first() =~= s@.skip(start + 1));
            start += 1;
        } else {
            let mut n: usize = start;
            while n < chars.len() && !is_white_space(chars[n])
                invariant
                    chars@ == s@,
                    start <= n <= chars@.len(),
                    forall|j: int| start <= j < n ==> !is_ws(chars@[j]),
                decreases chars.len() - n,
            {
                n += 1;
            }
            out.push(string_of(&chars, start, n));
            proof {
                lemma_word_len(rest);
                assert(word_len(rest) == n - start) by {
                    if word_len(rest) < n - start {
                        assert(is_ws(s@[start + word_len(rest)]));
                    }
                    if word_len(rest) > n - start {
                        assert(!is_ws(rest[n - start]));
                    }
                }
                assert(s@.subrange(start as int, n as int) =~= rest.take(n - start));
                assert(rest.skip(n - start) =~= s@.skip(n as int));
                assert(out.deep_view() =~= before + seq![rest.take(n - start)]);
                assert(out.deep_view() + words(s@.skip(n as int)) =~= before + (seq![
                    rest.take(n - start),
                ] + words(s@.skip(n as int))));
            }
            start = n;
        }
    }
    proof {
        assert(s@.skip(start as int) =~= Seq::<char>::empty());
        assert(out.deep_view() + words(s@.skip(start as int)) =~= out.deep_view());
    }
    out
}

// ---------- Parts of a text ----------

/// Whether `p` stands somewhere in `t`.
pub open spec fn has_part(t: Text, p: Text) -> bool {
    exists|i: int| #[trigger] part_at(t, p, i)
}

/// Whether `p` stands in `t` at position `i`.
pub open spec fn part_at(t: Text, p: Text, i: int) -> bool {
    0 <= i <= t.len() - p.len() && t.subrange(i, i + p.len()) == p
}

fn is_part_at(t: &Vec<char>, p: &Vec<char>, i: usize) -> (r: bool)
    requires
        i + p@.len() <= t@.len(),
    ensures
        r == part_at(t@, p@, i as int),
{
    let n: usize = t.len();
    let mut j: usize = 0;
    while j < p.len()
        invariant
            n == t@.len(),
            i + p@.len() <= n,
            j <= p@.len(),
            forall|k: int| 0 <= k < j ==> t@[i + k] == p@[k],
        decreases p.len() - j,
    {
        if t[i + j] != p[j] {
            assert(t@.subrange(i as int, i + p@.len())[j as int] != p@[j as int]);
            return false;
        }
        j += 1;
    }
    assert(t@.subrange(i as int, i + p@.len()) =~= p@);
    true
}

/// Whether one text contains another.
pub fn contains_text(s: &str, part: &str) -> (r: bool)
    ensures
        r == has_part(s@, part@),
{
    let t = chars_of(s);
    let p = chars_of(part);
    if p.len() > t.len() {
        return false;
    }
    let last: usize = t.len() - p.len();
    let mut i: usize = 0;
    while i <= last
        invariant
            t@ == s@,
            p@ == part@,
            last == t@.len() - p@.len(),
            i <= last + 1,
            forall|k: int| 0 <= k < i ==> !part_at(s@, part@, k),
        decreases last + 1 - i,
    {
        if is_part_at(&t, &p, i) {
            return true;
        }
        if i == last {
            return false;
        }
        i += 1;
    }
    false
}

/// Whether one text begins with another.
pub fn starts_with_text(s: &str, prefix: &str) -> (r: bool)
    ensures
        r == prefix@.is_prefix_of(s@),
{
    let t = chars_of(s);
    let p = chars_of(prefix);
    if p.len() > t.len() {
        return false;
    }
    let r = is_part_at(&t, &p, 0);
    assert(t@.subrange(0, p@.len() as int) =~= s@.take(p@.len() as int));
    r
}

/// Whether the list holds the text.
pub fn contains_string(list: &Vec<String>, s: &str) -> (r: bool)
    ensures
        r == list.deep_view().contains(s@),
{
    let mut i: usize = 0;
    while i < list.len()
        invariant
            i <= list@.len(),
            forall|j: int| 0 <= j < i ==> list.deep_view()[j] != s@,
        decreases list.len() - i,
    {
        if text_eq(list[i].as_str(), s) {
            assert(list.deep_view()[i as int] == s@);
            return true;
        }
        i += 1;
    }
    false
}

/// A copy of a list of texts.
pub fn copy_list(list: &Vec<String>) -> (r: Vec<String>)
    ensures
        r.deep_view() == list.deep_view(),
{
    let r = list.clone();
    assert(r.deep_view() =~= list.deep_view());
    r
}

/// A copy of an optional text.
pub fn copy_opt(s: &Option<String>) -> (r: Option<String>)
    ensures
        r.deep_view() == s.deep_view(),
{
    match s {
        Some(t) => Some(t.clone()),
        None => None,
    }
}

/// A copy of an optional list of texts.
pub fn copy_opt_list(list: &Option<Vec<String>>) -> (r: Option<Vec<String>>)
    ensures
        r.deep_view() == list.deep_view(),
{
    match list {
        Some(l) => Some(copy_list(l)),
        None => None,
    }
}

/// The list texts written one after another with `sep` between them.
pub open spec fn join(list: Seq<Text>, sep: Text) -> Text
    decreases list.len(),
{
    if list.len() == 0 {
        Seq::empty()
    } else if list.len() == 1 {
        list.first()
    } else {
        join(list.drop_last(), sep) + sep + list.last()
    }
}

/// Writes the texts one after another with a separator between them.
pub fn join_texts(list: &Vec<String>, sep: &str) -> (r: String)
    ensures
        r@ == join(list.deep_view(), sep@),
{
    let mut out = String::new();
    let mut i: usize = 0;
    let ghost all = list.deep_view();
    while i < list.len()
        invariant
            all == list.deep_view(),
            i <= list@.len(),
            out@ == join(all.take(i as int), sep@),
        decreases list.len() - i,
    {
        let ghost before = out@;
        if i > 0 {
            out.append(sep);
        }
        out.append(list[i].as_str());
        proof {
            let t = all.take(i + 1);
            assert(t.drop_last() =~= all.take(i as int));
            assert(t.last() == list@[i as int]@);
            if i == 0 {
                assert(before =~= Seq::<char>::empty());
                assert(out@ =~= t.first());
            }
        }
        i += 1;
    }
    assert(all.take(list@.len() as int) =~= all);
    out
}

/// The texts of `list` without repetitions, each where it first stands.
pub open spec fn distinct(list: Seq<Text>) -> Seq<Text>
    decreases list.len(),
{
    if list.len() == 0 {
        list
    } else {
        let front = distinct(list.drop_last());
        if front.contains(list.last()) {
            front
        } else {
            front.push(list.last())
        }
    }
}

pub proof fn lemma_distinct(list: Seq<Text>)
    ensures
        distinct(list).no_duplicates(),
        forall|x: Text|
            #![trigger distinct(list).contains(x)]
            #![trigger list.contains(x)]
            distinct(list).contains(x) <==> list.contains(x),
    decreases list.len(),
{
    if list.len() > 0 {
        let front = list.drop_last();
        lemma_distinct(front);
        let d = distinct(list);
        assert forall|x: Text| d.contains(x) <==> list.contains(x) by {
            if list.contains(x) {
                let i = choose|i: int| 0 <= i < list.len() && list[i] == x;
                if i < list.len() - 1 {
                    assert(front[i] == x);
                    assert(front.contains(x));
                    assert(distinct(front).contains(x));
                    let k = choose|k: int| 0 <= k < distinct(front).len() && distinct(front)[k] == x;
                    assert(d[k] == x);
                } else if !distinct(front).contains(x) {
                    assert(d.last() == x);
                } else {
                    let k = choose|k: int| 0 <= k < distinct(front).len() && distinct(front)[k] == x;
                    assert(d[k] == x);
                }
            }
            if d.contains(x) {
                let k = choose|k: int| 0 <= k < d.len() && d[k] == x;
                if k < distinct(front).len() {
                    assert(distinct(front)[k] == x);
                    assert(distinct(front).contains(x));
                    let i = choose|i: int| 0 <= i < front.len() && front[i] == x;
                    assert(list[i] == x);
                } else {
                    assert(list.last() == x);
                }
            }
        }
    }
}

/// The texts of a list without repetitions.
pub fn distinct_texts(list: &Vec<String>) -> (r: Vec<String>)
    ensures
        r.deep_view() == distinct(list.deep_view()),
{
    let mut out: Vec<String> = Vec::new();
    let mut i: usize = 0;
    let ghost all = list.deep_view();
    assert(out.deep_view() =~= distinct(all.take(0)));
    while i < list.len()
        invariant
            all == list.deep_view(),
            i <= list@.len(),
            out.deep_view() == distinct(all.take(i as int)),
        decreases list.len() - i,
    {
        assert(all.take(i + 1).drop_last() =~= all.take(i as int));
        if !contains_string(&out, list[i].as_str()) {
            let ghost before = out.deep_view();
            out.push(list[i].clone());
            assert(out.deep_view() =~= before.push(all[i as int]));
        }
        i += 1;
    }
    assert(all.take(list@.len() as int) =~= all);
    out
}

// ---------- Splitting what was joined ----------

/// A piece without `c` that is put after a `c` is split off again.
pub proof fn lemma_split_push(a: Text, b: Text, c: char)
    requires
        !b.contains(c),
    ensures
        split(a + seq![c] + b, c) == split(a, c).push(b),
    decreases a.len(),
{
    let t = a + seq![c] + b;
    let n = find(a, c);
    lemma_find(a, c);
    if n < a.len() {
        assert forall|i: int| 0 <= i < n implies t[i] != c by {
            assert(t[i] == a[i]);
        }
        lemma_find_is(t, c, n);
        assert(t.take(n) =~= a.take(n));
        assert(t.skip(n + 1) =~= a.skip(n + 1) + seq![c] + b);
        lemma_split_push(a.skip(n + 1), b, c);
        assert(split(t, c) =~= split(a, c).push(b));
    } else {
        assert forall|i: int| 0 <= i < a.len() implies t[i] != c by {
            assert(t[i] == a[i]);
        }
        lemma_find_is(t, c, a.len() as int);
        assert(t.take(a.len() as int) =~= a);
        assert(t.skip(a.len() as int + 1) =~= b);
        lemma_split_whole(b, c);
        assert(split(t, c) =~= split(a, c).push(b));
    }
}

/// A text without `c` is its own only piece.
pub proof fn lemma_split_whole(t: Text, c: char)
    requires
        !t.contains(c),
    ensures
        find(t, c) == t.len(),
        split(t, c) == seq![t],
{
    lemma_find(t, c);
    if find(t, c) < t.len() {
        assert(t[find(t, c)] == c);
    }
}

/// Splitting undoes joining, for pieces without the separator.
pub proof fn lemma_split_join(pieces: Seq<Text>, c: char)
    requires
        pieces.len() > 0,
        forall|i: int| 0 <= i < pieces.len() ==> !(#[trigger] pieces[i]).contains(c),
    ensures
        split(join(pieces, seq![c]), c) == pieces,
    decreases pieces.len(),
{
    if pieces.len() == 1 {
        lemma_split_whole(pieces[0], c);
        assert(seq![pieces[0]] =~= pieces);
    } else {
        let front = pieces.drop_last();
        assert forall|i: int| 0 <= i < front.len() implies !(#[trigger] front[i]).contains(c) by {
            assert(front[i] == pieces[i]);
        }
        lemma_split_join(front, c);
        lemma_split_push(join(front, seq![c]), pieces.last(), c);
        assert(front.push(pieces.last()) =~= pieces);
    }
}

/// A list and its contents have one length, and it fits a machine word.
pub proof fn lemma_list_len(list: &Vec<String>)
    ensures
        list.deep_view().len() == list@.len(),
        list@.len() <= usize::MAX,
{
    assert(list@.len() == list.len());
}

// ---------- Cleaning lists ----------

/// Each text of a list without the white space around it.
pub open spec fn trims(list: Seq<Text>) -> Seq<Text> {
    list.map_values(|t: Text| trim(t))
}

/// The texts of a list that hold anything.
pub open spec fn nonempty(list: Seq<Text>) -> Seq<Text>
    decreases list.len(),
{
    if list.len() == 0 {
        list
    } else {
        let front = nonempty(list.drop_last());
        if list.last().len() > 0 {
            front.push(list.last())
        } else {
            front
        }
    }
}

/// The texts of a list that hold anything.
pub fn nonempty_texts(list: &Vec<String>) -> (r: Vec<String>)
    ensures
        r.deep_view() == nonempty(list.deep_view()),
{
    let mut out: Vec<String> = Vec::new();
    let mut i: usize = 0;
    let ghost all = list.deep_view();
    assert(out.deep_view() =~= nonempty(all.take(0)));
    while i < list.len()
        invariant
            all == list.deep_view(),
            i <= list@.len(),
            out.deep_view() == nonempty(all.take(i as int)),
        decreases list.len() - i,
    {
        assert(all.take(i + 1).drop_last() =~= all.take(i as int));
        if !is_blank(list[i].as_str()) {
            let ghost before = out.deep_view();
            out.push(list[i].clone());
            assert(out.deep_view() =~= before.push(all[i as int]));
        }
        i += 1;
    }
    assert(all.take(list@.len() as int) =~= all);
    out
}

/// Whether a text holds nothing.
pub fn is_blank(s: &str) -> (r: bool)
    ensures
        r == (s@.len() == 0),
{
    chars_of(s).len() == 0
}

/// Each text of a list without the white space around it.
pub fn trimmed_texts(list: &Vec<String>) -> (r: Vec<String>)
    ensures
        r.deep_view() == trims(list.deep_view()),
{
    let mut out: Vec<String> = Vec::new();
    let mut i: usize = 0;
    while i < list.len()
        invariant
            i <= list@.len(),
            out@.len() == i,
            forall|j: int| 0 <= j < i ==> #[trigger] out@[j]@ == trim(list@[j]@),
        decreases list.len() - i,
    {
        out.push(trimmed(list[i].as_str()));
        i += 1;
    }
    assert(out.deep_view() =~= trims(list.deep_view()));
    out
}

/// Tells of a text whether it is missing from `list`.
pub open spec fn not_in(list: Seq<Text>) -> spec_fn(Text) -> bool {
    |x: Text| !list.contains(x)
}

/// The texts of `a` that are not in `b`.
pub open spec fn minus(a: Seq<Text>, b: Seq<Text>) -> Seq<Text> {
    a.filter(not_in(b))
}

/// The texts of one list that are not in another.
pub fn minus_texts(a: &Vec<String>, b: &Vec<String>) -> (r: Vec<String>)
    ensures
        r.deep_view() == minus(a.deep_view(), b.deep_view()),
{
    let mut out: Vec<String> = Vec::new();
    let ghost all = a.deep_view();
    let ghost gone = b.deep_view();
    let mut i: usize = 0;
    proof {
        reveal(Seq::filter);
        assert(out.deep_view() =~= minus(all.take(0), gone));
    }
    while i < a.len()
        invariant
            all == a.deep_view(),
            gone == b.deep_view(),
            i <= a@.len(),
            out.deep_view() == minus(all.take(i as int), gone),
        decreases a.len() - i,
    {
        proof {
            reveal(Seq::filter);
            assert(all.take(i + 1).drop_last() =~= all.take(i as int));
        }
        if !contains_string(b, a[i].as_str()) {
            let ghost before = out.deep_view();
            out.push(a[i].clone());
            assert(out.deep_view() =~= before.push(all[i as int]));
        }
        i += 1;
    }
    assert(all.take(a@.len() as int) =~= all);
    out
}

/// What is in the difference of two lists is in the first and not in the second.
pub proof fn lemma_minus(a: Seq<Text>, b: Seq<Text>)
    ensures
        forall|i: int|
            0 <= i < minus(a, b).len() ==> a.contains(#[trigger] minus(a, b)[i]) && !b.contains(
                minus(a, b)[i],
            ),
{
    assert forall|i: int| 0 <= i < minus(a, b).len() implies a.contains(#[trigger] minus(a, b)[i])
        && !b.contains(minus(a, b)[i]) by {
        a.lemma_filter_pred(not_in(b), i);
        a.lemma_filter_contains_rev(not_in(b), minus(a, b)[i]);
    }
}

} // verus!
