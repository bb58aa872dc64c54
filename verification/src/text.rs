//! Text helpers: trimming, splitting, joining, and reading and writing
//! decimal numbers, all stated over sequences of characters.

use vstd::prelude::*;
use vstd::string::*;

verus! {

// ─── Standard library calls ────────────────────────────────

/// `String::push`: appends one character to the end of the string.
pub assume_specification[ String::push ](s: &mut String, c: char)
    ensures
        final(s)@ == old(s)@.push(c),
;

/// `String::pop`: removes the last character and returns it; an empty string
/// stays empty and yields `None`.
pub assume_specification[ String::pop ](s: &mut String) -> (r: Option<char>)
    ensures
        old(s)@.len() == 0 ==> r is None && final(s)@ == old(s)@,
        old(s)@.len() > 0 ==> r == Some(old(s)@.last()) && final(s)@ == old(s)@.drop_last(),
;

/// `==` on two string slices: true exactly when they hold the same characters.
#[verifier::external_body]
pub(crate) fn same_text(a: &str, b: &str) -> (r: bool)
    ensures
        r == (a@ == b@),
{
    a == b
}

// ─── Characters ────────────────────────────────────────────

/// The characters with the Unicode `White_Space` property.
pub open spec fn is_space(c: char) -> bool {
    ||| '\u{9}' <= c <= '\u{d}'
    ||| c == ' '
    ||| c == '\u{85}'
    ||| c == '\u{a0}'
    ||| c == '\u{1680}'
    ||| '\u{2000}' <= c <= '\u{200a}'
    ||| c == '\u{2028}'
    ||| c == '\u{2029}'
    ||| c == '\u{202f}'
    ||| c == '\u{205f}'
    ||| c == '\u{3000}'
}

/// Tells whether `c` is white space.
pub fn space_char(c: char) -> (r: bool)
    ensures
        r == is_space(c),
{
    ('\u{9}' <= c && c <= '\u{d}') || c == ' ' || c == '\u{85}' || c == '\u{a0}' || c == '\u{1680}'
        || ('\u{2000}' <= c && c <= '\u{200a}') || c == '\u{2028}' || c == '\u{2029}' || c
        == '\u{202f}' || c == '\u{205f}' || c == '\u{3000}'
}

/// ASCII upper case letters become lower case; every other character stays.
pub open spec fn lower(c: char) -> char {
    if 'A' <= c <= 'Z' {
        ((c as u32 + 32) as u32) as char
    } else {
        c
    }
}

/// Lower-cases an ASCII letter.
pub fn lower_char(c: char) -> (r: char)
    ensures
        r == lower(c),
{
    if 'A' <= c && c <= 'Z' {
        ((c as u8) + 32) as char
    } else {
        c
    }
}

/// The characters of a string, in order.
pub fn chars_of(s: &str) -> (r: Vec<char>)
    ensures
        r@ == s@,
{
    let mut out: Vec<char> = Vec::new();
    for c in it: s.chars()
        invariant
            out@ == it.seq().take(it.index()),
            it.seq() == s@,
    {
        out.push(c);
    }
    assert(s@.take(s@.len() as int) =~= s@);
    out
}

/// The string of the characters `from..to`.
pub fn string_of(chars: &Vec<char>, from: usize, to: usize) -> (r: String)
    requires
        from <= to <= chars@.len(),
    ensures
        r@ == chars@.subrange(from as int, to as int),
{
    let mut out = String::new();
    let mut i: usize = from;
    while i < to
        invariant
            from <= i <= to <= chars@.len(),
            out@ == chars@.subrange(from as int, i as int),
        decreases to - i,
    {
        out.push(chars[i]);
        i += 1;
        assert(chars@.subrange(from as int, i as int) =~= chars@.subrange(
            from as int,
            i - 1,
        ).push(chars@[i - 1]));
    }
    out
}

// ─── Trimming ──────────────────────────────────────────────

/// `s` without its leading white space.
pub open spec fn trim_start(s: Seq<char>) -> Seq<char>
    decreases s.len(),
{
    if s.len() > 0 && is_space(s[0]) {
        trim_start(s.skip(1))
    } else {
        s
    }
}

/// `s` without its trailing white space.
pub open spec fn trim_end(s: Seq<char>) -> Seq<char>
    decreases s.len(),
{
    if s.len() > 0 && is_space(s.last()) {
        trim_end(s.drop_last())
    } else {
        s
    }
}

/// `s` without white space on either side.
pub open spec fn trim(s: Seq<char>) -> Seq<char> {
    trim_end(trim_start(s))
}

/// Trimming at the front never lengthens a text.
pub proof fn lemma_trim_start_len(s: Seq<char>)
    ensures
        trim_start(s).len() <= s.len(),
        trim_start(s).len() > 0 ==> !is_space(trim_start(s)[0]),
    decreases s.len(),
{
    if s.len() > 0 && is_space(s[0]) {
        lemma_trim_start_len(s.skip(1));
    }
}

/// A text that ends in something else than white space stays whole in front of
/// what is trimmed.
pub proof fn lemma_trim_end_add(x: Seq<char>, y: Seq<char>)
    requires
        x.len() > 0,
        !is_space(x.last()),
    ensures
        trim_end(x + y) == x + trim_end(y),
    decreases y.len(),
{
    if y.len() == 0 {
        assert(x + y =~= x);
        assert(x + trim_end(y) =~= x);
    } else {
        assert((x + y).last() == y.last());
        assert((x + y).drop_last() =~= x + y.drop_last());
        if is_space(y.last()) {
            lemma_trim_end_add(x, y.drop_last());
        }
    }
}

/// Trimming at the end leaves a front part.
pub proof fn lemma_trim_end_front(s: Seq<char>)
    ensures
        trim_end(s).len() <= s.len(),
        trim_end(s) == s.take(trim_end(s).len() as int),
        trim_end(s).len() > 0 ==> !is_space(trim_end(s).last()),
    decreases s.len(),
{
    if s.len() > 0 && is_space(s.last()) {
        lemma_trim_end_front(s.drop_last());
        assert(trim_end(s) =~= s.take(trim_end(s).len() as int));
    } else {
        assert(s =~= s.take(s.len() as int));
    }
}

/// Trimming never lengthens a text.
pub proof fn lemma_trim_len(s: Seq<char>)
    ensures
        trim(s).len() <= s.len(),
{
    lemma_trim_start_len(s);
    lemma_trim_end_front(trim_start(s));
}

proof fn lemma_trim_end_head(c: char, s: Seq<char>)
    requires
        is_space(c),
    ensures
        trim_end(seq![c] + s) == if trim_end(s).len() == 0 {
            seq![]
        } else {
            seq![c] + trim_end(s)
        },
    decreases s.len(),
{
    let t = seq![c] + s;
    if s.len() == 0 {
        assert(t.last() == c);
        assert(t.drop_last() =~= seq![]);
        reveal_with_fuel(trim_end, 2);
    } else {
        assert(t.last() == s.last());
        assert(t.drop_last() =~= seq![c] + s.drop_last());
        if is_space(s.last()) {
            lemma_trim_end_head(c, s.drop_last());
        }
    }
}

/// The two ends of a text may be trimmed in either order.
pub proof fn lemma_trim_order(s: Seq<char>)
    ensures
        trim_start(trim_end(s)) == trim(s),
    decreases s.len(),
{
    lemma_trim_end_front(s);
    if s.len() == 0 {
    } else if is_space(s[0]) {
        let rest = s.skip(1);
        assert(s =~= seq![s[0]] + rest);
        lemma_trim_order(rest);
        lemma_trim_end_head(s[0], rest);
        if trim_end(rest).len() > 0 {
            let t = seq![s[0]] + trim_end(rest);
            assert(t.skip(1) =~= trim_end(rest));
            assert(t[0] == s[0]);
        }
    } else {
        lemma_trim_end_add(seq![s[0]], s.skip(1));
        assert(s =~= seq![s[0]] + s.skip(1));
        assert(trim_end(s)[0] == s[0]);
    }
}

/// Trimming at the end first changes nothing of what trimming gives, nor does
/// white space in front.
pub proof fn lemma_trim_again(s: Seq<char>)
    ensures
        trim(trim_end(s)) == trim(s),
        forall|c: char| #[trigger] is_space(c) ==> trim(seq![c] + s) == trim(s),
{
    lemma_trim_order(s);
    lemma_trim_end_front(trim_start(s));
    assert forall|c: char| #[trigger] is_space(c) implies trim(seq![c] + s) == trim(s) by {
        let t = seq![c] + s;
        assert(t[0] == c);
        assert(t.skip(1) =~= s);
    }
}

/// Where the text without leading white space begins.
fn start_of(chars: &Vec<char>) -> (a: usize)
    ensures
        a <= chars@.len(),
        trim_start(chars@) == chars@.skip(a as int),
{
    let mut a: usize = 0;
    assert(chars@.skip(0) =~= chars@);
    while a < chars.len() && space_char(chars[a])
        invariant
            a <= chars@.len(),
            trim_start(chars@) == trim_start(chars@.skip(a as int)),
        decreases chars@.len() - a,
    {
        assert(chars@.skip(a as int).skip(1) =~= chars@.skip(a + 1));
        a += 1;
    }
    a
}

/// `s` without leading white space.
pub fn trim_start_text(s: &str) -> (r: &str)
    ensures
        r@ == trim_start(s@),
{
    let chars = chars_of(s);
    let a: usize = start_of(&chars);
    assert(s@.subrange(a as int, s@.len() as int) =~= s@.skip(a as int));
    s.substring_char(a, chars.len())
}

/// `s` without white space on either side.
pub fn trim_text(s: &str) -> (r: &str)
    ensures
        r@ == trim(s@),
{
    let chars = chars_of(s);
    let a: usize = start_of(&chars);
    let mut b: usize = chars.len();
    let ghost t = s@.skip(a as int);
    assert(t.take(t.len() as int) =~= t);
    while b > a && space_char(chars[b - 1])
        invariant
            a <= b <= chars@.len(),
            chars@ == s@,
            t == s@.skip(a as int),
            trim_end(t) == trim_end(t.take(b - a)),
        decreases b,
    {
        assert(t.take(b - a).drop_last() =~= t.take(b - a - 1));
        b -= 1;
    }
    assert(t.take(b - a) =~= s@.subrange(a as int, b as int));
    s.substring_char(a, b)
}

// ─── Words ─────────────────────────────────────────────────

/// How many characters stand before the first white space.
pub open spec fn word_len(s: Seq<char>) -> nat
    decreases s.len(),
{
    if s.len() == 0 || is_space(s[0]) {
        0
    } else {
        1 + word_len(s.skip(1))
    }
}

pub proof fn lemma_word_len(s: Seq<char>)
    ensures
        word_len(s) <= s.len(),
        word_len(s) < s.len() ==> is_space(s[word_len(s) as int]),
        forall|i: int| 0 <= i < word_len(s) ==> !is_space(#[trigger] s[i]),
    decreases s.len(),
{
    if s.len() > 0 && !is_space(s[0]) {
        lemma_word_len(s.skip(1));
        assert forall|i: int| 0 <= i < word_len(s) implies !is_space(#[trigger] s[i]) by {
            if i > 0 {
                assert(s[i] == s.skip(1)[i - 1]);
            }
        }
    }
}

/// The words of `s`: its longest runs without white space, in order.
pub open spec fn words(s: Seq<char>) -> Seq<Seq<char>>
    decreases s.len(),
{
    let t = trim_start(s);
    if t.len() == 0 {
        seq![]
    } else {
        proof {
            lemma_trim_start_len(s);
            lemma_word_len(t);
        }
        seq![t.take(word_len(t) as int)] + words(t.skip(word_len(t) as int))
    }
}

/// The text held by each string of a list.
pub open spec fn texts(v: Seq<String>) -> Seq<Seq<char>> {
    v.map_values(|s: String| s@)
}

pub proof fn lemma_texts_push(v: Seq<String>, s: String)
    ensures
        texts(v.push(s)) == texts(v).push(s@),
{
    assert(texts(v.push(s)) =~= texts(v).push(s@));
}

/// The words of `s`.
pub fn words_of(s: &str) -> (r: Vec<String>)
    ensures
        texts(r@) == words(s@),
{
    let chars = chars_of(s);
    let n: usize = chars.len();
    let mut out: Vec<String> = Vec::new();
    let mut i: usize = 0;
    assert(chars@.skip(0) =~= chars@);
    assert(texts(out@) =~= seq![]);
    assert(seq![] + words(s@) =~= words(s@));
    while i < n
        invariant
            i <= n,
            n == chars@.len(),
            chars@ == s@,
            texts(out@) + words(s@.skip(i as int)) == words(s@),
        decreases n - i,
    {
        if space_char(chars[i]) {
            proof {
                assert(s@.skip(i as int).skip(1) =~= s@.skip(i + 1));
                assert(trim_start(s@.skip(i as int)) == trim_start(s@.skip(i + 1)));
                assert(words(s@.skip(i as int)) == words(s@.skip(i + 1)));
            }
            i += 1;
        } else {
            let ghost t = s@.skip(i as int);
            let from: usize = i;
            while i < n && !space_char(chars[i])
                invariant
                    from <= i <= n,
                    n == chars@.len(),
                    chars@ == s@,
                    t == s@.skip(from as int),
                    word_len(t) == (i - from) + word_len(s@.skip(i as int)),
                decreases n - i,
            {
                assert(s@.skip(i as int).skip(1) =~= s@.skip(i + 1));
                i += 1;
            }
            let w = string_of(&chars, from, i);
            proof {
                assert(trim_start(t) == t);
                assert(t.take(i - from) =~= w@);
                assert(t.skip(i - from) =~= s@.skip(i as int));
                assert(words(t) == seq![w@] + words(s@.skip(i as int)));
                lemma_texts_push(out@, w);
                assert(texts(out@) + (seq![w@] + words(s@.skip(i as int))) =~= texts(out@).push(w@)
                    + words(s@.skip(i as int)));
            }
            out.push(w);
        }
    }
    assert(words(s@.skip(n as int)) =~= seq![]);
    assert(texts(out@) + seq![] =~= texts(out@));
    out
}

/// Splits at the first white space character, which belongs to neither side.
pub open spec fn split_once_space(s: Seq<char>) -> Option<(Seq<char>, Seq<char>)> {
    let n = word_len(s) as int;
    if n < s.len() {
        Some((s.take(n), s.skip(n + 1)))
    } else {
        None
    }
}

/// Splits `s` at its first white space character.
pub fn split_once_space_text(s: &str) -> (r: Option<(&str, &str)>)
    ensures
        match r {
            Some((a, b)) => split_once_space(s@) == Some((a@, b@)),
            None => split_once_space(s@) is None,
        },
{
    let chars = chars_of(s);
    let n: usize = chars.len();
    let mut i: usize = 0;
    assert(s@.skip(0) =~= s@);
    while i < n && !space_char(chars[i])
        invariant
            i <= n,
            n == chars@.len(),
            chars@ == s@,
            word_len(s@) == i + word_len(s@.skip(i as int)),
        decreases n - i,
    {
        assert(s@.skip(i as int).skip(1) =~= s@.skip(i + 1));
        i += 1;
    }
    if i < n {
        let a = s.substring_char(0, i);
        let b = s.substring_char(i + 1, n);
        assert(a@ =~= s@.take(i as int));
        assert(b@ =~= s@.skip(i + 1));
        Some((a, b))
    } else {
        None
    }
}

// ─── Splitting at a separator and joining ──────────────────

/// How many characters stand before the first `sep`.
pub open spec fn until(s: Seq<char>, sep: char) -> nat
    decreases s.len(),
{
    if s.len() == 0 || s[0] == sep {
        0
    } else {
        1 + until(s.skip(1), sep)
    }
}

pub proof fn lemma_until(s: Seq<char>, sep: char)
    ensures
        until(s, sep) <= s.len(),
        until(s, sep) < s.len() ==> s[until(s, sep) as int] == sep,
        forall|i: int| 0 <= i < until(s, sep) ==> #[trigger] s[i] != sep,
    decreases s.len(),
{
    if s.len() > 0 && s[0] != sep {
        lemma_until(s.skip(1), sep);
        assert forall|i: int| 0 <= i < until(s, sep) implies #[trigger] s[i] != sep by {
            if i > 0 {
                assert(s[i] == s.skip(1)[i - 1]);
            }
        }
    }
}

/// The pieces of `s` between the separators, one more than there are
/// separators.
pub open spec fn split_on(s: Seq<char>, sep: char) -> Seq<Seq<char>>
    decreases s.len(),
{
    let n = until(s, sep) as int;
    if n >= s.len() {
        seq![s]
    } else {
        seq![s.take(n)] + split_on(s.skip(n + 1), sep)
    }
}

/// A character other than the separator stands in the text exactly where it
/// stands in one of the pieces.
pub proof fn lemma_split_contains(s: Seq<char>, sep: char, c: char)
    requires
        c != sep,
    ensures
        s.contains(c) <==> exists|i: int|
            0 <= i < split_on(s, sep).len() && (#[trigger] split_on(s, sep)[i]).contains(c),
    decreases s.len(),
{
    let n = until(s, sep) as int;
    let all = split_on(s, sep);
    lemma_until(s, sep);
    if n >= s.len() {
        assert(all[0] == s);
    } else {
        let head = s.take(n);
        let tail = s.skip(n + 1);
        let rest = split_on(tail, sep);
        lemma_split_contains(tail, sep, c);
        assert(all == seq![head] + rest);
        assert(all[0] == head);
        if s.contains(c) {
            let k = s.index_of(c);
            if k < n {
                assert(head[k] == c);
            } else {
                assert(tail[k - n - 1] == c);
                let i = choose|i: int| 0 <= i < rest.len() && (#[trigger] rest[i]).contains(c);
                assert(all[i + 1] == rest[i]);
            }
        }
        if exists|i: int| 0 <= i < all.len() && (#[trigger] all[i]).contains(c) {
            let i = choose|i: int| 0 <= i < all.len() && (#[trigger] all[i]).contains(c);
            let k = all[i].index_of(c);
            if i == 0 {
                assert(s[k] == head[k]);
            } else {
                assert(all[i] == rest[i - 1]);
                assert(tail.contains(c));
                let m = tail.index_of(c);
                assert(s[m + n + 1] == tail[m]);
            }
        }
    }
}

/// The pieces of `s` between the separators.
pub fn split_text(s: &str, sep: char) -> (r: Vec<String>)
    ensures
        texts(r@) == split_on(s@, sep),
        r@.len() >= 1,
{
    let chars = chars_of(s);
    let n: usize = chars.len();
    let mut out: Vec<String> = Vec::new();
    let mut from: usize = 0;
    let mut i: usize = 0;
    assert(chars@.skip(0) =~= chars@);
    assert(texts(out@) =~= seq![]);
    assert(seq![] + split_on(s@, sep) =~= split_on(s@, sep));
    while i < n
        invariant
            from <= i <= n,
            n == chars@.len(),
            chars@ == s@,
            until(s@.skip(from as int), sep) == (i - from) + until(s@.skip(i as int), sep),
            texts(out@) + split_on(s@.skip(from as int), sep) == split_on(s@, sep),
        decreases n - i,
    {
        let ghost t = s@.skip(from as int);
        assert(s@.skip(i as int).skip(1) =~= s@.skip(i + 1));
        if chars[i] == sep {
            let w = string_of(&chars, from, i);
            proof {
                assert(t.take(i - from) =~= w@);
                assert(t.skip(i - from + 1) =~= s@.skip(i + 1));
                assert(split_on(t, sep) == seq![w@] + split_on(s@.skip(i + 1), sep));
                lemma_texts_push(out@, w);
                assert(texts(out@) + (seq![w@] + split_on(s@.skip(i + 1), sep)) =~= texts(
                    out@,
                ).push(w@) + split_on(s@.skip(i + 1), sep));
            }
            out.push(w);
            from = i + 1;
        }
        i += 1;
    }
    let w = string_of(&chars, from, n);
    proof {
        let t = s@.skip(from as int);
        assert(t =~= w@);
        assert(split_on(t, sep) =~= seq![w@]);
        lemma_texts_push(out@, w);
        assert(texts(out@) + seq![w@] =~= texts(out@).push(w@));
    }
    out.push(w);
    out
}

/// The pieces of a list put one after the other with `sep` between them.
pub open spec fn join(parts: Seq<Seq<char>>, sep: Seq<char>) -> Seq<char>
    decreases parts.len(),
{
    if parts.len() == 0 {
        seq![]
    } else if parts.len() == 1 {
        parts[0]
    } else {
        join(parts.drop_last(), sep) + sep + parts.last()
    }
}

/// Joins the strings `from..` of a list with `sep` between them.
pub fn join_text(parts: &Vec<String>, from: usize, sep: &str) -> (r: String)
    requires
        from <= parts@.len(),
    ensures
        r@ == join(texts(parts@).skip(from as int), sep@),
{
    let mut out = String::new();
    let mut i: usize = from;
    let ghost all = texts(parts@).skip(from as int);
    assert(join(all.take(0), sep@) =~= seq![]);
    while i < parts.len()
        invariant
            from <= i <= parts@.len(),
            all == texts(parts@).skip(from as int),
            out@ == join(all.take(i - from), sep@),
        decreases parts@.len() - i,
    {
        proof {
            let k = i - from + 1;
            assert(all.take(k).drop_last() =~= all.take(k - 1));
            assert(all.take(k).last() == parts@[i as int]@);
        }
        if i > from {
            out.append(sep);
        }
        out.append(parts[i].as_str());
        proof {
            if i == from {
                assert(seq![] + parts@[i as int]@ =~= parts@[i as int]@);
            }
        }
        i += 1;
    }
    assert(all.take(all.len() as int) =~= all);
    out
}

// ─── Prefixes ──────────────────────────────────────────────

/// Tells whether `s` begins with `p`.
pub open spec fn starts_with(s: Seq<char>, p: Seq<char>) -> bool {
    p.len() <= s.len() && s.take(p.len() as int) == p
}

/// Tells whether `s` ends with `p`.
pub open spec fn ends_with(s: Seq<char>, p: Seq<char>) -> bool {
    p.len() <= s.len() && s.skip(s.len() - p.len()) == p
}

/// Tells whether `s` begins with `p`.
pub fn has_prefix(s: &str, p: &str) -> (r: bool)
    ensures
        r == starts_with(s@, p@),
{
    let n: usize = p.unicode_len();
    if n > s.unicode_len() {
        return false;
    }
    let head = s.substring_char(0, n);
    assert(head@ =~= s@.take(n as int));
    same_text(head, p)
}

/// Tells whether `s` ends with `p`.
pub fn has_suffix(s: &str, p: &str) -> (r: bool)
    ensures
        r == ends_with(s@, p@),
{
    let n: usize = p.unicode_len();
    let m: usize = s.unicode_len();
    if n > m {
        return false;
    }
    let tail = s.substring_char(m - n, m);
    assert(tail@ =~= s@.skip(m - n));
    same_text(tail, p)
}

/// The text after the prefix `p`, where `s` begins with it.
pub fn strip_prefix_text<'a>(s: &'a str, p: &str) -> (r: Option<&'a str>)
    ensures
        match r {
            Some(t) => starts_with(s@, p@) && t@ == s@.skip(p@.len() as int),
            None => !starts_with(s@, p@),
        },
{
    if has_prefix(s, p) {
        let t = s.substring_char(p.unicode_len(), s.unicode_len());
        assert(t@ =~= s@.skip(p@.len() as int));
        Some(t)
    } else {
        None
    }
}

/// The text before the suffix `p`, where `s` ends with it.
pub fn strip_suffix_text<'a>(s: &'a str, p: &str) -> (r: Option<&'a str>)
    ensures
        match r {
            Some(t) => ends_with(s@, p@) && t@ == s@.take(s@.len() - p@.len()),
            None => !ends_with(s@, p@),
        },
{
    if has_suffix(s, p) {
        let t = s.substring_char(0, s.unicode_len() - p.unicode_len());
        assert(t@ =~= s@.take(s@.len() - p@.len()));
        Some(t)
    } else {
        None
    }
}

/// Where `p` first occurs in `s`, counted in characters.
pub open spec fn find(s: Seq<char>, p: Seq<char>) -> Option<nat>
    decreases s.len(),
{
    if starts_with(s, p) {
        Some(0)
    } else if s.len() == 0 {
        None
    } else {
        match find(s.skip(1), p) {
            Some(i) => Some(i + 1),
            None => None,
        }
    }
}

/// A place that was found holds the text and is followed by the rest.
pub proof fn lemma_find(s: Seq<char>, p: Seq<char>)
    ensures
        find(s, p) matches Some(i) ==> i + p.len() <= s.len() && starts_with(s.skip(i as int), p),
    decreases s.len(),
{
    if starts_with(s, p) {
        assert(s.skip(0) =~= s);
    } else if s.len() > 0 {
        lemma_find(s.skip(1), p);
        match find(s.skip(1), p) {
            Some(i) => {
                assert(s.skip(1).skip(i as int) =~= s.skip(i as int + 1));
            },
            None => {},
        }
    }
}

/// No place before the one that is found holds the text.
pub proof fn lemma_find_first(s: Seq<char>, p: Seq<char>, k: int)
    requires
        0 <= k <= s.len(),
        starts_with(s.skip(k), p),
    ensures
        find(s, p) matches Some(i) && i <= k,
    decreases s.len(),
{
    if k == 0 {
        assert(s.skip(0) =~= s);
    } else {
        assert(s.skip(1).skip(k - 1) =~= s.skip(k));
        lemma_find_first(s.skip(1), p, k - 1);
    }
}

/// Where `p` first occurs in `s`, counted in characters.
pub fn find_text(s: &str, p: &str) -> (r: Option<usize>)
    ensures
        match r {
            Some(i) => find(s@, p@) == Some(i as nat),
            None => find(s@, p@) is None,
        },
{
    let n: usize = s.unicode_len();
    let mut i: usize = 0;
    assert(s@.skip(0) =~= s@);
    while i < n
        invariant
            i <= n,
            n == s@.len(),
            match find(s@.skip(i as int), p@) {
                Some(k) => find(s@, p@) == Some((i + k) as nat),
                None => find(s@, p@) is None,
            },
        decreases n - i,
    {
        let rest = s.substring_char(i, n);
        assert(rest@ =~= s@.skip(i as int));
        if has_prefix(rest, p) {
            return Some(i);
        }
        assert(s@.skip(i as int).skip(1) =~= s@.skip(i + 1));
        i += 1;
    }
    let rest = s.substring_char(n, n);
    assert(rest@ =~= s@.skip(n as int));
    if has_prefix(rest, p) {
        Some(n)
    } else {
        None
    }
}

// ─── Numbers ───────────────────────────────────────────────

pub open spec fn is_digit(c: char) -> bool {
    '0' <= c <= '9'
}

pub open spec fn digit_value(c: char) -> nat {
    (c as int - '0' as int) as nat
}

pub open spec fn digit_char(d: nat) -> char {
    ((('0' as int) + d) as u32) as char
}

/// The number that a run of decimal digits writes.
pub open spec fn digits_value(s: Seq<char>) -> nat
    decreases s.len(),
{
    if s.len() == 0 {
        0
    } else {
        digits_value(s.drop_last()) * 10 + digit_value(s.last())
    }
}

pub open spec fn all_digits(s: Seq<char>) -> bool {
    forall|i: int| 0 <= i < s.len() ==> is_digit(#[trigger] s[i])
}

/// An unsigned number no larger than `max`: one or more decimal digits, with
/// an optional `+` in front.
pub open spec fn parse_unsigned(s: Seq<char>, max: nat) -> Option<nat> {
    let d = if s.len() > 0 && s[0] == '+' {
        s.skip(1)
    } else {
        s
    };
    if d.len() > 0 && all_digits(d) && digits_value(d) <= max {
        Some(digits_value(d))
    } else {
        None
    }
}

/// A 64-bit signed number: one or more decimal digits with an optional sign.
pub open spec fn parse_signed(s: Seq<char>) -> Option<int> {
    if s.len() > 0 && s[0] == '-' {
        let d = s.skip(1);
        if d.len() > 0 && all_digits(d) && digits_value(d) <= 0x8000_0000_0000_0000 {
            Some(-(digits_value(d) as int))
        } else {
            None
        }
    } else {
        match parse_unsigned(s, 0x7fff_ffff_ffff_ffff) {
            Some(n) => Some(n as int),
            None => None,
        }
    }
}

proof fn lemma_digits_value_grows(s: Seq<char>, i: int)
    requires
        0 <= i <= s.len(),
    ensures
        digits_value(s.take(i)) <= digits_value(s),
    decreases s.len() - i,
{
    if i < s.len() {
        lemma_digits_value_grows(s, i + 1);
        assert(s.take(i + 1).drop_last() =~= s.take(i));
    } else {
        assert(s.take(i) =~= s);
    }
}

/// The value of the digits from `from` on, where there are any, all are
/// digits and the value is at most `max`.
fn read_digits(chars: &Vec<char>, from: usize, max: u64) -> (r: Option<u64>)
    requires
        from <= chars@.len(),
    ensures
        ({
            let d = chars@.skip(from as int);
            match r {
                Some(v) => d.len() > 0 && all_digits(d) && digits_value(d) == v && v <= max,
                None => !(d.len() > 0 && all_digits(d) && digits_value(d) <= max),
            }
        }),
{
    let ghost d = chars@.skip(from as int);
    let n: usize = chars.len();
    if from == n {
        return None;
    }
    let mut acc: u64 = 0;
    let mut i: usize = from;
    while i < n
        invariant
            from <= i <= n,
            n == chars@.len(),
            d == chars@.skip(from as int),
            acc <= max,
            acc == digits_value(d.take(i - from)),
            forall|j: int| 0 <= j < i - from ==> is_digit(#[trigger] d[j]),
        decreases n - i,
    {
        let c = chars[i];
        assert(d[i - from] == c);
        if !('0' <= c && c <= '9') {
            return None;
        }
        let v: u64 = ((c as u8) - 48) as u64;
        proof {
            assert(d.take(i - from + 1).drop_last() =~= d.take(i - from));
            assert(d.take(i - from + 1).last() == c);
            assert(digits_value(d.take(i - from + 1)) == acc * 10 + v);
            lemma_digits_value_grows(d, i - from + 1);
        }
        if acc > (u64::MAX - v) / 10 || acc * 10 + v > max {
            return None;
        }
        acc = acc * 10 + v;
        i += 1;
    }
    assert(d.take(d.len() as int) =~= d);
    Some(acc)
}

/// Reads an unsigned number no larger than `max`.
pub fn parse_unsigned_text(s: &str, max: u64) -> (r: Option<u64>)
    ensures
        match r {
            Some(v) => parse_unsigned(s@, max as nat) == Some(v as nat),
            None => parse_unsigned(s@, max as nat) is None,
        },
{
    let chars = chars_of(s);
    assert(s@.skip(0) =~= s@);
    if chars.len() > 0 && chars[0] == '+' {
        read_digits(&chars, 1, max)
    } else {
        read_digits(&chars, 0, max)
    }
}

/// Reads a signed 64-bit number.
pub fn parse_signed_text(s: &str) -> (r: Option<i64>)
    ensures
        match r {
            Some(v) => parse_signed(s@) == Some(v as int),
            None => parse_signed(s@) is None,
        },
{
    let chars = chars_of(s);
    if chars.len() > 0 && chars[0] == '-' {
        match read_digits(&chars, 1, 0x8000_0000_0000_0000) {
            Some(v) => {
                if v == 0x8000_0000_0000_0000 {
                    Some(i64::MIN)
                } else {
                    Some(-(v as i64))
                }
            },
            None => None,
        }
    } else {
        match parse_unsigned_text(s, 0x7fff_ffff_ffff_ffff) {
            Some(v) => Some(v as i64),
            None => None,
        }
    }
}

/// The decimal digits of `n`, without leading zeros.
pub open spec fn decimal(n: nat) -> Seq<char>
    decreases n,
{
    if n < 10 {
        seq![digit_char(n)]
    } else {
        decimal(n / 10).push(digit_char(n % 10))
    }
}

/// Writes `n` in decimal.
pub fn decimal_text(n: u128) -> (r: String)
    ensures
        r@ == decimal(n as nat),
    decreases n,
{
    let digit: u8 = (n % 10) as u8;
    if n < 10 {
        let mut out = String::new();
        out.push((48 + digit) as char);
        assert(out@ =~= decimal(n as nat));
        out
    } else {
        let mut out = decimal_text(n / 10);
        out.push((48 + digit) as char);
        out
    }
}

/// Reading back a number that was written in decimal gives that number.
pub proof fn decimal_reads_back(n: nat, max: nat)
    requires
        n <= max,
    ensures
        parse_unsigned(decimal(n), max) == Some(n),
{
    lemma_decimal(n);
}

pub proof fn lemma_decimal(n: nat)
    ensures
        decimal(n).len() > 0,
        all_digits(decimal(n)),
        digits_value(decimal(n)) == n,
    decreases n,
{
    if n < 10 {
        assert(decimal(n).drop_last() =~= seq![]);
        assert(digits_value(seq![]) == 0);
        assert(decimal(n).last() == digit_char(n));
        assert(digits_value(decimal(n)) == digit_value(digit_char(n)));
    } else {
        lemma_decimal(n / 10);
        let s = decimal(n / 10);
        let d = digit_char(n % 10);
        assert(s.push(d).drop_last() =~= s);
        assert forall|i: int| 0 <= i < decimal(n).len() implies is_digit(
            #[trigger] decimal(n)[i],
        ) by {
            if i < s.len() {
                assert(decimal(n)[i] == s[i]);
            }
        }
    }
}

/// A text with its ASCII letters in lower case.
pub open spec fn lowered(s: Seq<char>) -> Seq<char> {
    s.map_values(|c: char| lower(c))
}

/// A copy of `s` in ASCII lower case.
pub fn lower_text(s: &str) -> (r: String)
    ensures
        r@ == lowered(s@),
{
    let chars = chars_of(s);
    let mut out = String::new();
    let mut i: usize = 0;
    while i < chars.len()
        invariant
            i <= chars@.len(),
            chars@ == s@,
            out@ == s@.take(i as int).map_values(|c: char| lower(c)),
        decreases chars@.len() - i,
    {
        out.push(lower_char(chars[i]));
        i += 1;
        assert(s@.take(i as int).map_values(|c: char| lower(c)) =~= s@.take(i - 1).map_values(
            |c: char| lower(c),
        ).push(lower(s@[i - 1])));
    }
    assert(s@.take(s@.len() as int) =~= s@);
    out
}

} // verus!
