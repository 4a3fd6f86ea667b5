//! Text as sequences of characters: white space, words, byte lengths, searching.

use vstd::prelude::*;
use vstd::string::*;
use vstd::utf8::*;

verus! {

/// `String::push`: appends one character.
pub assume_specification[ String::push ](s: &mut String, c: char)
    ensures
        final(s)@ == old(s)@.push(c),
;

// ─── Characters ────────────────────────────────────────────────────────

/// The Unicode `White_Space` property.
pub open spec fn is_space(c: char) -> bool {
    let u = c as u32;
    ||| 0x09 <= u <= 0x0d
    ||| u == 0x20
    ||| u == 0x85
    ||| u == 0xa0
    ||| u == 0x1680
    ||| 0x2000 <= u <= 0x200a
    ||| u == 0x2028
    ||| u == 0x2029
    ||| u == 0x202f
    ||| u == 0x205f
    ||| u == 0x3000
}

/// Whether `c` is white space.
pub fn is_whitespace(c: char) -> (r: bool)
    ensures
        r == is_space(c),
{
    let u: u32 = c as u32;
    (0x09 <= u && u <= 0x0d) || u == 0x20 || u == 0x85 || u == 0xa0 || u == 0x1680 || (0x2000 <= u
        && u <= 0x200a) || u == 0x2028 || u == 0x2029 || u == 0x202f || u == 0x205f || u == 0x3000
}

/// The number of bytes of `c` in UTF-8.
pub open spec fn char_bytes(c: char) -> nat {
    let u = c as u32;
    if u <= 0x7f {
        1
    } else if u <= 0x7ff {
        2
    } else if u <= 0xffff {
        3
    } else {
        4
    }
}

/// The number of bytes of `s` in UTF-8.
pub open spec fn byte_len(s: Seq<char>) -> nat
    decreases s.len(),
{
    if s.len() == 0 {
        0
    } else {
        byte_len(s.drop_last()) + char_bytes(s.last())
    }
}

proof fn lemma_char_bytes(c: char)
    ensures
        encode_scalar(c as u32).len() == char_bytes(c),
{
    char_is_scalar(c);
}

proof fn lemma_byte_len_front(s: Seq<char>)
    requires
        s.len() > 0,
    ensures
        byte_len(s) == char_bytes(s[0]) + byte_len(s.drop_first()),
    decreases s.len(),
{
    if s.len() == 1 {
        assert(s.drop_last() =~= Seq::<char>::empty());
        assert(s.drop_first() =~= Seq::<char>::empty());
    } else {
        lemma_byte_len_front(s.drop_last());
        assert(s.drop_last().drop_first() =~= s.drop_first().drop_last());
    }
}

/// `byte_len` counts the bytes of the UTF-8 encoding.
pub proof fn lemma_byte_len_is_utf8(s: Seq<char>)
    ensures
        encode_utf8(s).len() == byte_len(s),
    decreases s.len(),
{
    if s.len() > 0 {
        lemma_char_bytes(s[0]);
        lemma_byte_len_front(s);
        lemma_byte_len_is_utf8(s.drop_first());
    }
}

/// A prefix takes no more bytes than the whole, and a whole as many bytes as
/// its two parts.
pub proof fn lemma_byte_len_split(s: Seq<char>, i: int)
    requires
        0 <= i <= s.len(),
    ensures
        byte_len(s) == byte_len(s.take(i)) + byte_len(s.skip(i)),
        byte_len(s.take(i)) >= i,
    decreases s.len(),
{
    if i == s.len() {
        assert(s.take(i) =~= s);
        assert(s.skip(i) =~= Seq::<char>::empty());
        lemma_byte_len_at_least(s);
    } else {
        lemma_byte_len_split(s.drop_last(), i);
        assert(s.drop_last().take(i) =~= s.take(i));
        assert(s.drop_last().skip(i) =~= s.skip(i).drop_last());
    }
}

proof fn lemma_byte_len_at_least(s: Seq<char>)
    ensures
        byte_len(s) >= s.len(),
    decreases s.len(),
{
    if s.len() > 0 {
        lemma_byte_len_at_least(s.drop_last());
    }
}

/// The number of bytes of `c` in UTF-8.
pub fn utf8_len(c: char) -> (r: usize)
    ensures
        r == char_bytes(c),
{
    let u: u32 = c as u32;
    if u <= 0x7f {
        1
    } else if u <= 0x7ff {
        2
    } else if u <= 0xffff {
        3
    } else {
        4
    }
}

/// The number of bytes of `s`.
pub fn text_bytes(s: &str) -> (r: usize)
    ensures
        r == byte_len(s@),
{
    proof {
        lemma_byte_len_is_utf8(s@);
    }
    s.as_bytes().len()
}

/// The characters of `s`.
pub fn chars_of(s: &str) -> (r: Vec<char>)
    ensures
        r@ == s@,
{
    let mut out: Vec<char> = Vec::new();
    for c in it: s.chars()
        invariant
            it.seq() == s@,
            out@ == s@.take(it.index()),
    {
        out.push(c);
        proof {
            assert(s@.take(it.index() + 1) =~= s@.take(it.index()).push(c));
        }
    }
    proof {
        assert(s@.take(s@.len() as int) =~= s@);
    }
    out
}

/// The characters `s[from..to]` as text.
pub fn text_of(s: &[char], from: usize, to: usize) -> (r: String)
    requires
        from <= to <= s@.len(),
    ensures
        r@ == s@.subrange(from as int, to as int),
{
    let mut out = String::new();
    let mut i: usize = from;
    while i < to
        invariant
            from <= i <= to <= s@.len(),
            out@ == s@.subrange(from as int, i as int),
        decreases to - i,
    {
        out.push(s[i]);
        proof {
            assert(s@.subrange(from as int, i + 1) =~= s@.subrange(from as int, i as int).push(
                s@[i as int],
            ));
        }
        i = i + 1;
    }
    out
}

/// Whether two texts hold the same characters.
pub fn same_text(a: &str, b: &str) -> (r: bool)
    ensures
        r == (a@ == b@),
{
    a.to_owned() == b.to_owned()
}

// ─── Trimming ──────────────────────────────────────────────────────────

/// `s` without its leading white space.
pub open spec fn trim_start(s: Seq<char>) -> Seq<char>
    decreases s.len(),
{
    if s.len() > 0 && is_space(s[0]) {
        trim_start(s.drop_first())
    } else {
        s
    }
}

/// `s` without its trailing white space.
pub open spec fn trim_end(s: Seq<char>) -> Seq<char>
    decreases s.len(),
{
    if s.len() > 0 && is_space(s.last()) {
        trim_end(s.drop_last())
    } else {
        s
    }
}

/// `s` without its leading and trailing white space.
pub open spec fn trim(s: Seq<char>) -> Seq<char> {
    trim_end(trim_start(s))
}

proof fn lemma_trim_start(s: Seq<char>, a: int)
    requires
        0 <= a <= s.len(),
        forall|j: int| 0 <= j < a ==> is_space(#[trigger] s[j]),
        a == s.len() || !is_space(s[a]),
    ensures
        trim_start(s) == s.skip(a),
    decreases a,
{
    if a == 0 {
        assert(s.skip(0) =~= s);
    } else {
        assert(is_space(s[0]));
        assert forall|j: int| 0 <= j < a - 1 implies is_space(#[trigger] s.drop_first()[j]) by {
            assert(s.drop_first()[j] == s[j + 1]);
        }
        lemma_trim_start(s.drop_first(), a - 1);
        assert(s.drop_first().skip(a - 1) =~= s.skip(a));
    }
}

proof fn lemma_trim_end(s: Seq<char>, b: int)
    requires
        0 <= b <= s.len(),
        forall|j: int| b <= j < s.len() ==> is_space(#[trigger] s[j]),
        b == 0 || !is_space(s[b - 1]),
    ensures
        trim_end(s) == s.take(b),
    decreases s.len(),
{
    if b == s.len() {
        assert(s.take(b) =~= s);
    } else {
        assert(is_space(s[s.len() - 1]));
        lemma_trim_end(s.drop_last(), b);
        assert(s.drop_last().take(b) =~= s.take(b));
    }
}

/// Trimming leaves text that neither begins nor ends with white space.
pub proof fn lemma_trim_ends(s: Seq<char>)
    ensures
        trim(s).len() <= s.len(),
        trim(s).len() > 0 ==> !is_space(trim(s)[0]) && !is_space(trim(s).last()),
{
    lemma_trim_start_head(s);
    lemma_trim_end_last(trim_start(s));
}

proof fn lemma_trim_start_head(s: Seq<char>)
    ensures
        trim_start(s).len() <= s.len(),
        trim_start(s).len() > 0 ==> !is_space(trim_start(s)[0]),
    decreases s.len(),
{
    if s.len() > 0 && is_space(s[0]) {
        lemma_trim_start_head(s.drop_first());
    }
}

proof fn lemma_trim_end_last(s: Seq<char>)
    ensures
        trim_end(s).len() <= s.len(),
        trim_end(s).len() > 0 ==> !is_space(trim_end(s).last()) && trim_end(s)[0] == s[0],
    decreases s.len(),
{
    if s.len() > 0 && is_space(s.last()) {
        lemma_trim_end_last(s.drop_last());
    }
}

/// Trimming twice is trimming once.
pub proof fn lemma_trim_idempotent(s: Seq<char>)
    ensures
        trim(trim(s)) == trim(s),
{
    lemma_trim_ends(s);
}

/// A text without white space at either end is what trimming leaves of it.
pub proof fn lemma_trim_of_trimmed(s: Seq<char>)
    requires
        s.len() > 0,
        !is_space(s[0]),
        !is_space(s.last()),
    ensures
        trim(s) == s,
{
}

/// The bounds of `s` without its leading and trailing white space.
pub fn trim_bounds(s: &[char]) -> (r: (usize, usize))
    ensures
        r.0 <= r.1 <= s@.len(),
        s@.subrange(r.0 as int, r.1 as int) == trim(s@),
{
    let n: usize = s.len();
    let mut a: usize = 0;
    while a < n && is_whitespace(s[a])
        invariant
            a <= n == s@.len(),
            forall|j: int| 0 <= j < a ==> is_space(#[trigger] s@[j]),
        decreases n - a,
    {
        a = a + 1;
    }
    let mut b: usize = n;
    while a < b && is_whitespace(s[b - 1])
        invariant
            a <= b <= n == s@.len(),
            forall|j: int| b <= j < n ==> is_space(#[trigger] s@[j]),
            a == n || !is_space(s@[a as int]),
        decreases b,
    {
        b = b - 1;
    }
    proof {
        lemma_trim_start(s@, a as int);
        let rest = s@.skip(a as int);
        lemma_trim_end(rest, b - a);
        assert(rest.take(b - a) =~= s@.subrange(a as int, b as int));
    }
    (a, b)
}

/// `s` without its leading and trailing white space.
pub fn trim_text(s: &str) -> (r: String)
    ensures
        r@ == trim(s@),
{
    let chars = chars_of(s);
    let (a, b) = trim_bounds(chars.as_slice());
    text_of(chars.as_slice(), a, b)
}

/// Whether `s` holds nothing but white space.
pub fn is_blank(s: &str) -> (r: bool)
    ensures
        r == (trim(s@).len() == 0),
{
    let chars = chars_of(s);
    let (a, b) = trim_bounds(chars.as_slice());
    a == b
}

// ─── Words ─────────────────────────────────────────────────────────────

/// The places of the words of `s` in order, each from its first character to
/// one past its last. A word is a longest run without white space.
pub open spec fn spans(s: Seq<char>) -> Seq<(int, int)>
    decreases s.len(),
{
    if s.len() == 0 {
        Seq::empty()
    } else {
        let n = s.len() as int;
        let before = spans(s.drop_last());
        if is_space(s.last()) {
            before
        } else if n == 1 || is_space(s[n - 2]) {
            before.push((n - 1, n))
        } else {
            before.update(before.len() - 1, (before.last().0, n))
        }
    }
}

/// The words of `s` in order.
pub open spec fn words(s: Seq<char>) -> Seq<Seq<char>> {
    Seq::new(spans(s).len(), |i: int| s.subrange(spans(s)[i].0, spans(s)[i].1))
}

/// The number of words of `s`.
pub open spec fn word_count(s: Seq<char>) -> nat {
    spans(s).len()
}

/// Every word lies inside the text, holds at least one character and no white
/// space; words come in order, with white space before and behind each.
pub proof fn lemma_spans(s: Seq<char>)
    ensures
        spans(s).len() <= s.len(),
        forall|k: int|
            0 <= k < spans(s).len() ==> 0 <= (#[trigger] spans(s)[k]).0 < spans(s)[k].1 <= s.len(),
        forall|k: int, j: int|
            #![trigger spans(s)[k], s[j]]
            0 <= k < spans(s).len() && spans(s)[k].0 <= j < spans(s)[k].1 ==> !is_space(s[j]),
        forall|k: int, l: int|
            0 <= k < l < spans(s).len() ==> (#[trigger] spans(s)[k]).1 < (#[trigger] spans(s)[l]).0,
        s.len() > 0 && !is_space(s.last()) ==> spans(s).len() > 0 && spans(s).last().1 == s.len(),
        s.len() > 0 && is_space(s.last()) && spans(s).len() > 0 ==> spans(s).last().1 < s.len(),
    decreases s.len(),
{
    if s.len() > 0 {
        let t = s.drop_last();
        lemma_spans(t);
        assert forall|k: int, j: int|
            #![trigger spans(s)[k], s[j]]
            0 <= k < spans(s).len() && spans(s)[k].0 <= j < spans(s)[k].1 implies !is_space(
            s[j],
        ) by {
            if j < t.len() {
                assert(t[j] == s[j]);
                if k < spans(t).len() {
                    assert(spans(t)[k].0 == spans(s)[k].0);
                }
            }
        }
    }
}

/// The places of the words of `s`.
pub fn word_spans(s: &[char]) -> (r: Vec<(usize, usize)>)
    ensures
        r@.len() == spans(s@).len(),
        forall|k: int|
            0 <= k < r@.len() ==> (#[trigger] r@[k]).0 == spans(s@)[k].0 && r@[k].1
                == spans(s@)[k].1 && r@[k].0 < r@[k].1 <= s@.len(),
{
    let n: usize = s.len();
    let mut out: Vec<(usize, usize)> = Vec::new();
    let mut i: usize = 0;
    proof {
        assert(s@.take(0) =~= Seq::<char>::empty());
    }
    while i < n
        invariant
            i <= n == s@.len(),
            out@.len() == spans(s@.take(i as int)).len(),
            forall|k: int|
                0 <= k < out@.len() ==> (#[trigger] out@[k]).0 == spans(s@.take(i as int))[k].0
                    && out@[k].1 == spans(s@.take(i as int))[k].1,
        decreases n - i,
    {
        proof {
            let t = s@.take(i + 1);
            assert(t.drop_last() =~= s@.take(i as int));
            lemma_spans(s@.take(i as int));
        }
        if !is_whitespace(s[i]) {
            if i == 0 || is_whitespace(s[i - 1]) {
                out.push((i, i + 1));
            } else {
                let last: usize = out.len() - 1;
                let start: usize = out[last].0;
                out.set(last, (start, i + 1));
            }
        }
        i = i + 1;
    }
    proof {
        assert(s@.take(n as int) =~= s@);
        lemma_spans(s@);
    }
    out
}

/// The number of words of `s`.
pub fn count_words(s: &str) -> (r: usize)
    ensures
        r == word_count(s@),
{
    let chars = chars_of(s);
    word_spans(chars.as_slice()).len()
}

// ─── Searching ─────────────────────────────────────────────────────────

/// Whether `needle` stands in `s` at place `i`.
pub open spec fn stands_at(s: Seq<char>, needle: Seq<char>, i: int) -> bool {
    0 <= i && i + needle.len() <= s.len() && s.subrange(i, i + needle.len()) == needle
}

/// Whether `needle` stands somewhere in `s`.
pub open spec fn occurs(s: Seq<char>, needle: Seq<char>) -> bool {
    exists|i: int| stands_at(s, needle, i)
}

/// Whether `needle` stands in `s` at place `i`.
pub fn matches_at(s: &[char], needle: &[char], i: usize) -> (r: bool)
    requires
        i <= s@.len(),
    ensures
        r == stands_at(s@, needle@, i as int),
{
    let n: usize = s.len();
    let m: usize = needle.len();
    if n - i < m {
        return false;
    }
    let mut k: usize = 0;
    while k < m
        invariant
            k <= m == needle@.len(),
            i + m <= n == s@.len(),
            forall|j: int| 0 <= j < k ==> s@[i + j] == #[trigger] needle@[j],
        decreases m - k,
    {
        if s[i + k] != needle[k] {
            proof {
                assert(s@.subrange(i as int, i + m)[k as int] != needle@[k as int]);
            }
            return false;
        }
        k = k + 1;
    }
    proof {
        assert(s@.subrange(i as int, i + m) =~= needle@);
    }
    true
}

/// The first place from `from` on at which `needle` stands in `s`.
pub open spec fn place_from(s: Seq<char>, needle: Seq<char>, from: int) -> Option<int>
    decreases s.len() - from + 1,
{
    if from + needle.len() > s.len() {
        None
    } else if stands_at(s, needle, from) {
        Some(from)
    } else {
        place_from(s, needle, from + 1)
    }
}

/// `place_from` finds a place, none before it, and one whenever there is one.
pub proof fn lemma_place(s: Seq<char>, needle: Seq<char>, from: int)
    requires
        0 <= from,
    ensures
        match place_from(s, needle, from) {
            Some(i) => {
                &&& from <= i
                &&& stands_at(s, needle, i)
                &&& forall|j: int| from <= j < i ==> !stands_at(s, needle, j)
            },
            None => forall|j: int| from <= j ==> !stands_at(s, needle, j),
        },
    decreases s.len() - from + 1,
{
    if from + needle.len() <= s.len() && !stands_at(s, needle, from) {
        lemma_place(s, needle, from + 1);
    }
}

/// The first place from `from` on at which `needle` stands in `s`.
pub fn find_from(s: &[char], needle: &[char], from: usize) -> (r: Option<usize>)
    requires
        from <= s@.len(),
    ensures
        match r {
            Some(i) => place_from(s@, needle@, from as int) == Some(i as int) && from <= i && i
                + needle@.len() <= s@.len(),
            None => place_from(s@, needle@, from as int) is None,
        },
{
    let n: usize = s.len();
    let m: usize = needle.len();
    let mut i: usize = from;
    while m <= n - i
        invariant
            from <= i <= n == s@.len(),
            m == needle@.len(),
            place_from(s@, needle@, from as int) == place_from(s@, needle@, i as int),
        decreases n - i,
    {
        if matches_at(s, needle, i) {
            return Some(i);
        }
        proof {
            if i == n {
                assert(s@.subrange(i as int, i as int) =~= needle@);
            }
        }
        i = i + 1;
    }
    None
}

/// Whether `s` begins with `prefix`.
pub fn begins_with(s: &[char], prefix: &[char]) -> (r: bool)
    ensures
        r == prefix@.is_prefix_of(s@),
{
    matches_at(s, prefix, 0)
}

/// Whether `needle` stands somewhere in `s`.
pub fn contains_text(s: &[char], needle: &[char]) -> (r: bool)
    ensures
        r == occurs(s@, needle@),
{
    proof {
        lemma_place(s@, needle@, 0);
    }
    find_from(s, needle, 0).is_some()
}

// ─── Splitting and joining ─────────────────────────────────────────────

/// The texts of a list.
pub open spec fn texts(list: Seq<String>) -> Seq<Seq<char>> {
    list.map_values(|s: String| s@)
}

/// The pieces of `s` between the separators `a` and `b`.
pub open spec fn pieces(s: Seq<char>, a: char, b: char) -> Seq<Seq<char>>
    decreases s.len(),
{
    if s.len() == 0 {
        seq![Seq::empty()]
    } else {
        let before = pieces(s.drop_last(), a, b);
        if s.last() == a || s.last() == b {
            before.push(Seq::empty())
        } else {
            before.update(before.len() - 1, before.last().push(s.last()))
        }
    }
}

/// The pieces of `s` between the places of `sep`, taken from left to right.
pub open spec fn split(s: Seq<char>, sep: Seq<char>) -> Seq<Seq<char>>
    decreases s.len(),
{
    match place_from(s, sep, 0) {
        Some(i) => if sep.len() == 0 {
            seq![s]
        } else {
            proof {
                lemma_place(s, sep, 0);
            }
            seq![s.take(i)] + split(s.skip(i + sep.len()), sep)
        },
        None => seq![s],
    }
}

/// `parts` with `sep` between them.
pub open spec fn joined(parts: Seq<Seq<char>>, sep: Seq<char>) -> Seq<char>
    decreases parts.len(),
{
    if parts.len() == 0 {
        Seq::empty()
    } else if parts.len() == 1 {
        parts[0]
    } else {
        joined(parts.drop_last(), sep) + sep + parts.last()
    }
}

/// `s` with `to` in place of each `from`.
pub open spec fn replaced(s: Seq<char>, from: Seq<char>, to: Seq<char>) -> Seq<char> {
    joined(split(s, from), to)
}

/// There is always a piece.
pub proof fn lemma_pieces(s: Seq<char>, a: char, b: char)
    ensures
        pieces(s, a, b).len() > 0,
    decreases s.len(),
{
    if s.len() > 0 {
        lemma_pieces(s.drop_last(), a, b);
    }
}

/// The pieces of `s` between the separators `a` and `b`.
pub fn pieces_of(s: &str, a: char, b: char) -> (r: Vec<String>)
    ensures
        texts(r@) == pieces(s@, a, b),
{
    let chars = chars_of(s);
    let n: usize = chars.len();
    let mut out: Vec<String> = Vec::new();
    let mut piece = String::new();
    let mut i: usize = 0;
    let ghost t = s@;
    proof {
        assert(t.take(0) =~= Seq::<char>::empty());
        assert(texts(out@).push(piece@) =~= seq![Seq::<char>::empty()]);
    }
    while i < n
        invariant
            i <= n == t.len(),
            chars@ == t,
            texts(out@).push(piece@) == pieces(t.take(i as int), a, b),
        decreases n - i,
    {
        let c: char = chars[i];
        let ghost before = texts(out@).push(piece@);
        proof {
            assert(t.take(i + 1).drop_last() =~= t.take(i as int));
        }
        if c == a || c == b {
            out.push(piece);
            piece = String::new();
            proof {
                assert(texts(out@) =~= before);
            }
        } else {
            piece.push(c);
            proof {
                assert(texts(out@).push(piece@) =~= before.update(
                    before.len() - 1,
                    before.last().push(c),
                ));
            }
        }
        i = i + 1;
    }
    let ghost before = texts(out@).push(piece@);
    out.push(piece);
    proof {
        assert(t.take(n as int) =~= t);
        assert(texts(out@) =~= before);
    }
    out
}

/// The pieces of `s` between the places of `sep`.
pub fn split_text(s: &str, sep: &str) -> (r: Vec<String>)
    requires
        sep@.len() > 0,
    ensures
        texts(r@) == split(s@, sep@),
{
    let chars = chars_of(s);
    let needle = chars_of(sep);
    let n: usize = chars.len();
    let mut out: Vec<String> = Vec::new();
    let mut pos: usize = 0;
    let ghost t = s@;
    proof {
        assert(t.skip(0) =~= t);
        assert(texts(out@) + split(t, sep@) =~= split(t, sep@));
    }
    loop
        invariant
            pos <= n == t.len(),
            chars@ == t,
            needle@ == sep@,
            sep@.len() > 0,
            t == s@,
            texts(out@) + split(t.skip(pos as int), sep@) == split(s@, sep@),
        decreases n - pos,
    {
        let ghost before = texts(out@);
        let ghost rest = t.skip(pos as int);
        proof {
            lemma_place_in_rest(t, sep@, pos as int, pos as int);
            assert(rest.skip(0) =~= rest);
        }
        match find_from(chars.as_slice(), needle.as_slice(), pos) {
            Some(i) => {
                out.push(text_of(chars.as_slice(), pos, i));
                proof {
                    lemma_place(t, sep@, pos as int);
                    assert(rest.take(i - pos) =~= t.subrange(pos as int, i as int));
                    assert(rest.skip(i - pos + sep@.len()) =~= t.skip(i + sep@.len()));
                    assert(texts(out@) =~= before.push(rest.take(i - pos)));
                    assert(texts(out@) + split(t.skip(i + sep@.len()), sep@) =~= before + split(
                        rest,
                        sep@,
                    ));
                }
                pos = i + needle.len();
            },
            None => {
                out.push(text_of(chars.as_slice(), pos, n));
                proof {
                    assert(rest =~= t.subrange(pos as int, n as int));
                    assert(texts(out@) =~= before + seq![rest]);
                }
                return out;
            },
        }
    }
}

proof fn lemma_place_in_rest(t: Seq<char>, sep: Seq<char>, pos: int, from: int)
    requires
        0 <= pos <= from <= t.len(),
        sep.len() > 0,
    ensures
        place_from(t.skip(pos), sep, from - pos) == (match place_from(t, sep, from) {
            Some(i) => Some(i - pos),
            None => None,
        }),
    decreases t.len() - from,
{
    let rest = t.skip(pos);
    if from + sep.len() <= t.len() {
        assert(rest.subrange(from - pos, from - pos + sep.len()) =~= t.subrange(
            from,
            from + sep.len(),
        ));
        if !stands_at(t, sep, from) {
            lemma_place_in_rest(t, sep, pos, from + 1);
        }
    }
}

/// `parts` with `sep` between them.
pub fn join_texts(parts: &[String], sep: &str) -> (r: String)
    ensures
        r@ == joined(texts(parts@), sep@),
{
    let ghost ws = texts(parts@);
    let mut out = String::new();
    let mut i: usize = 0;
    proof {
        assert(ws.take(0) =~= Seq::<Seq<char>>::empty());
    }
    while i < parts.len()
        invariant
            i <= parts@.len(),
            ws == texts(parts@),
            out@ == joined(ws.take(i as int), sep@),
        decreases parts@.len() - i,
    {
        proof {
            let t = ws.take(i + 1);
            assert(t.drop_last() =~= ws.take(i as int));
            assert(t.last() == parts@[i as int]@);
        }
        if i > 0 {
            out.append(sep);
            out.append(parts[i].as_str());
        } else {
            out = parts[i].clone();
        }
        i = i + 1;
    }
    proof {
        assert(ws.take(ws.len() as int) =~= ws);
    }
    out
}

/// `s` with `to` in place of each `from`.
pub fn replace_text(s: &str, from: &str, to: &str) -> (r: String)
    requires
        from@.len() > 0,
    ensures
        r@ == replaced(s@, from@, to@),
{
    let parts = split_text(s, from);
    join_texts(parts.as_slice(), to)
}

// ─── Words of parts ────────────────────────────────────────────────────

/// A word: at least one character, and no white space.
pub open spec fn is_word(w: Seq<char>) -> bool {
    w.len() > 0 && forall|i: int| 0 <= i < w.len() ==> !is_space(#[trigger] w[i])
}

/// The words of a text are words.
pub proof fn lemma_words_are_words(s: Seq<char>, k: int)
    requires
        0 <= k < words(s).len(),
    ensures
        is_word(words(s)[k]),
{
    lemma_spans(s);
    let (a, b) = spans(s)[k];
    let w = words(s)[k];
    assert forall|i: int| 0 <= i < w.len() implies !is_space(#[trigger] w[i]) by {
        assert(w[i] == s[a + i]);
        assert(spans(s)[k].0 <= a + i < spans(s)[k].1);
    }
}

proof fn lemma_spans_of_prefix(s: Seq<char>, k: int)
    requires
        0 <= k < spans(s).len(),
    ensures
        spans(s.take(spans(s)[k].1)) == spans(s).take(k + 1),
    decreases s.len(),
{
    lemma_spans(s);
    let end = spans(s)[k].1;
    let t = s.drop_last();
    lemma_spans(t);
    if end == s.len() {
        assert(s.take(end) =~= s);
        assert(k == spans(s).len() - 1) by {
            if k < spans(s).len() - 1 {
                assert(spans(s)[k].1 < spans(s)[spans(s).len() - 1].0);
            }
        }
        assert(spans(s).take(k + 1) =~= spans(s));
    } else {
        assert(k < spans(t).len() && spans(t)[k] == spans(s)[k]);
        lemma_spans_of_prefix(t, k);
        assert(t.take(end) =~= s.take(end));
        assert(spans(s).take(k + 1) =~= spans(t).take(k + 1)) by {
            assert forall|i: int| 0 <= i < k + 1 implies spans(s)[i] == spans(t)[i] by {
                if i < k {
                    assert(spans(s)[i].1 < spans(s)[k].0);
                }
            }
        }
    }
}

/// The words up to the end of a word are the first words.
pub proof fn lemma_words_of_prefix(s: Seq<char>, k: int)
    requires
        0 <= k < spans(s).len(),
    ensures
        words(s.take(spans(s)[k].1)) == words(s).take(k + 1),
{
    let end = spans(s)[k].1;
    let head = s.take(end);
    lemma_spans(s);
    lemma_spans_of_prefix(s, k);
    assert forall|i: int| 0 <= i < k + 1 implies words(head)[i] == words(s)[i] by {
        let (a, b) = spans(s)[i];
        assert(spans(head)[i] == (a, b));
        if i < k {
            assert(spans(s)[i].1 < spans(s)[k].0);
        }
        assert(head.subrange(a, b) =~= s.subrange(a, b));
    }
    assert(words(head) =~= words(s).take(k + 1));
}

proof fn lemma_spans_with_word(x: Seq<char>, w: Seq<char>)
    requires
        x.len() == 0 || is_space(x.last()),
        is_word(w),
    ensures
        spans(x + w) == spans(x).push((x.len() as int, (x.len() + w.len()) as int)),
    decreases w.len(),
{
    let s = x + w;
    let n = s.len() as int;
    let v = w.drop_last();
    assert(s.drop_last() =~= x + v);
    assert(s.last() == w[w.len() - 1]);
    if w.len() == 1 {
        assert(x + v =~= x);
        assert(n > 1 ==> s[n - 2] == x.last());
    } else {
        assert(forall|i: int| 0 <= i < v.len() ==> v[i] == w[i]);
        lemma_spans_with_word(x, v);
        assert(s[n - 2] == w[w.len() - 2]);
        assert(spans(s) =~= spans(x).push((x.len() as int, n)));
    }
}

/// Words with a space between them are the words of the whole.
pub proof fn lemma_words_joined(ws: Seq<Seq<char>>)
    requires
        forall|i: int| 0 <= i < ws.len() ==> is_word(#[trigger] ws[i]),
    ensures
        words(joined(ws, " "@)) == ws,
    decreases ws.len(),
{
    reveal_strlit(" ");
    let all = joined(ws, " "@);
    if ws.len() == 0 {
        assert(words(all) =~= ws);
    } else if ws.len() == 1 {
        let e = Seq::<char>::empty();
        lemma_spans_with_word(e, ws[0]);
        assert(e + ws[0] =~= ws[0]);
        assert(ws[0].subrange(0, ws[0].len() as int) =~= ws[0]);
        assert(words(all) =~= ws);
    } else {
        let front = ws.drop_last();
        let w = ws.last();
        assert(forall|i: int| 0 <= i < front.len() ==> front[i] == ws[i]);
        assert(is_word(ws[ws.len() - 1]));
        lemma_words_joined(front);
        let a = joined(front, " "@);
        let x = a + " "@;
        assert(x.drop_last() =~= a);
        assert(is_space(x.last()));
        assert(spans(x) == spans(a));
        lemma_spans_with_word(x, w);
        lemma_spans(a);
        assert(spans(all) == spans(a).push((x.len() as int, (x.len() + w.len()) as int)));
        assert forall|i: int| 0 <= i < ws.len() implies words(all)[i] == ws[i] by {
            if i < front.len() {
                let (p, q) = spans(a)[i];
                assert(words(a)[i] == front[i]);
                assert(all.subrange(p, q) =~= a.subrange(p, q));
            } else {
                assert(all.subrange(x.len() as int, (x.len() + w.len()) as int) =~= w);
            }
        }
        assert(words(all) =~= ws);
    }
}

// ─── Letters ───────────────────────────────────────────────────────────

/// Whether `c` is one of the 52 ASCII letters.
pub open spec fn is_ascii_letter(c: char) -> bool {
    ('a' <= c && c <= 'z') || ('A' <= c && c <= 'Z')
}

/// What `char::is_alphabetic` says of a character: the Unicode `Alphabetic`
/// property.
pub uninterp spec fn is_letter(c: char) -> bool;

/// `char::is_alphabetic` is a function of the character alone, and among the
/// ASCII characters exactly the letters are alphabetic.
pub assume_specification[ char::is_alphabetic ](c: char) -> (r: bool)
    ensures
        r == is_letter(c),
        (c as u32) < 0x80 ==> r == is_ascii_letter(c),
;

/// `c`, an ASCII capital turned into its small letter.
pub open spec fn ascii_lower(c: char) -> char {
    if 'A' <= c && c <= 'Z' {
        ((c as u8) + 32) as char
    } else {
        c
    }
}

/// `s` with each ASCII capital turned into its small letter.
pub open spec fn lower_text(s: Seq<char>) -> Seq<char> {
    s.map_values(|c: char| ascii_lower(c))
}

/// `c`, an ASCII capital turned into its small letter.
pub fn to_ascii_lower(c: char) -> (r: char)
    ensures
        r == ascii_lower(c),
{
    if 'A' <= c && c <= 'Z' {
        ((c as u8) + 32) as char
    } else {
        c
    }
}

/// `s` with each ASCII capital turned into its small letter.
pub fn lowered(s: &[char]) -> (r: Vec<char>)
    ensures
        r@ == lower_text(s@),
{
    let mut out: Vec<char> = Vec::new();
    let n: usize = s.len();
    let mut i: usize = 0;
    while i < n
        invariant
            i <= n == s@.len(),
            out@.len() == i,
            forall|k: int| 0 <= k < i ==> #[trigger] out@[k] == ascii_lower(s@[k]),
        decreases n - i,
    {
        out.push(to_ascii_lower(s[i]));
        i = i + 1;
    }
    proof {
        assert(out@ =~= lower_text(s@));
    }
    out
}

// ─── Laws ──────────────────────────────────────────────────────────────

/// Among the ASCII characters the space, tab, line feed, vertical tab, form feed
/// and carriage return are white space, and no others; the wide space of Chinese
/// text and the space that does not break are white space too.
pub proof fn law_white_space(c: char)
    ensures
        (c as u32) < 0x80 ==> (is_space(c) <==> c == ' ' || c == '\t' || c == '\n' || c == '\r' || c
            == '\x0b' || c == '\x0c'),
        c == '\u{3000}' || c == '\u{a0}' ==> is_space(c),
{
}

proof fn lemma_trim_start_of(left: Seq<char>, rest: Seq<char>)
    requires
        forall|i: int| 0 <= i < left.len() ==> is_space(#[trigger] left[i]),
        rest.len() > 0 ==> !is_space(rest[0]),
    ensures
        trim_start(left + rest) == rest,
{
    let s = left + rest;
    assert(s.skip(left.len() as int) =~= rest);
    lemma_trim_start(s, left.len() as int);
}

/// Trimming takes white space off both ends, all of it and nothing else.
pub proof fn law_trim_takes_off_both_ends(left: Seq<char>, core: Seq<char>, right: Seq<char>)
    requires
        forall|i: int| 0 <= i < left.len() ==> is_space(#[trigger] left[i]),
        forall|i: int| 0 <= i < right.len() ==> is_space(#[trigger] right[i]),
        core.len() > 0 ==> !is_space(core[0]) && !is_space(core.last()),
    ensures
        trim(left + core + right) == core,
{
    let rest = core + right;
    assert(left + core + right =~= left + rest);
    if core.len() > 0 {
        lemma_trim_start_of(left, rest);
        assert(rest.take(core.len() as int) =~= core);
        lemma_trim_end(rest, core.len() as int);
    } else {
        let s = left + rest;
        assert(core + right =~= right);
        let e = Seq::<char>::empty();
        lemma_trim_start_of(s, e);
        assert(s + e =~= s);
        assert(core =~= e);
    }
}

/// Whatever is trimmed lies inside the text, with nothing but white space around
/// it.
pub proof fn law_trim_leaves_the_core(s: Seq<char>)
    ensures
        exists|a: int, b: int|
            0 <= a <= b <= s.len() && trim(s) == #[trigger] s.subrange(a, b) && (forall|i: int|
                0 <= i < a || b <= i < s.len() ==> is_space(#[trigger] s[i])),
        trim(s).len() > 0 ==> !is_space(trim(s)[0]) && !is_space(trim(s).last()),
{
    lemma_trim_ends(s);
    let a = lemma_leading_space(s);
    let rest = s.skip(a);
    let b = a + lemma_trailing_space(rest);
    lemma_trim_start(s, a);
    lemma_trim_end(rest, b - a);
    assert(rest.take(b - a) =~= s.subrange(a, b));
    assert forall|i: int| 0 <= i < a || b <= i < s.len() implies is_space(#[trigger] s[i]) by {
        if b <= i {
            assert(rest[i - a] == s[i]);
        }
    }
}

proof fn lemma_leading_space(s: Seq<char>) -> (a: int)
    ensures
        0 <= a <= s.len(),
        forall|i: int| 0 <= i < a ==> is_space(#[trigger] s[i]),
        a < s.len() ==> !is_space(s[a]),
    decreases s.len(),
{
    if s.len() > 0 && is_space(s[0]) {
        let a = lemma_leading_space(s.drop_first());
        assert forall|i: int| 0 <= i < a + 1 implies is_space(#[trigger] s[i]) by {
            if i > 0 {
                assert(s.drop_first()[i - 1] == s[i]);
            }
        }
        a + 1
    } else {
        0
    }
}

proof fn lemma_trailing_space(s: Seq<char>) -> (b: int)
    ensures
        0 <= b <= s.len(),
        forall|i: int| b <= i < s.len() ==> is_space(#[trigger] s[i]),
        b > 0 ==> !is_space(s[b - 1]),
    decreases s.len(),
{
    if s.len() > 0 && is_space(s.last()) {
        let b = lemma_trailing_space(s.drop_last());
        assert forall|i: int| b <= i < s.len() implies is_space(#[trigger] s[i]) by {
            if i < s.len() - 1 {
                assert(s.drop_last()[i] == s[i]);
            }
        }
        b
    } else {
        s.len() as int
    }
}

proof fn lemma_spans_with_gap(x: Seq<char>, gap: Seq<char>)
    requires
        forall|i: int| 0 <= i < gap.len() ==> is_space(#[trigger] gap[i]),
    ensures
        spans(x + gap) == spans(x),
    decreases gap.len(),
{
    let s = x + gap;
    if gap.len() == 0 {
        assert(s =~= x);
    } else {
        assert(s.last() == gap[gap.len() - 1]);
        assert(s.drop_last() =~= x + gap.drop_last());
        lemma_spans_with_gap(x, gap.drop_last());
    }
}

/// White space holds no word, and a text that goes on with white space and a
/// word has that word more.
pub proof fn law_words_stand_between_white_space(x: Seq<char>, gap: Seq<char>, w: Seq<char>)
    requires
        forall|i: int| 0 <= i < gap.len() ==> is_space(#[trigger] gap[i]),
        gap.len() > 0 || x.len() == 0,
        is_word(w),
    ensures
        words(gap).len() == 0,
        words(x + gap) == words(x),
        words(x + gap + w) == words(x).push(w),
        word_count(x + gap + w) == word_count(x) + 1,
{
    let e = Seq::<char>::empty();
    let head = x + gap;
    let all = head + w;
    lemma_spans_with_gap(e, gap);
    assert(e + gap =~= gap);
    lemma_spans_with_gap(x, gap);
    lemma_spans(x);
    assert forall|i: int| 0 <= i < spans(x).len() implies words(head)[i] == words(x)[i] by {
        let (a, b) = spans(x)[i];
        assert(head.subrange(a, b) =~= x.subrange(a, b));
    }
    assert(words(head) =~= words(x));
    if head.len() > 0 {
        assert(gap.len() > 0);
        assert(head.last() == gap[gap.len() - 1]);
    }
    lemma_spans_with_word(head, w);
    assert forall|i: int| 0 <= i < spans(all).len() implies words(all)[i] == words(x).push(w)[i] by {
        if i < spans(x).len() {
            let (a, b) = spans(x)[i];
            assert(all.subrange(a, b) =~= x.subrange(a, b));
        } else {
            assert(all.subrange(head.len() as int, (head.len() + w.len()) as int) =~= w);
        }
    }
    assert(words(all) =~= words(x).push(w));
}

/// A text stands in another exactly where that other is made of something, the
/// text, and something else.
pub proof fn law_occurs_in_the_middle(x: Seq<char>, needle: Seq<char>, y: Seq<char>, s: Seq<char>)
    ensures
        occurs(x + needle + y, needle),
        stands_at(x + needle + y, needle, x.len() as int),
        occurs(s, needle) ==> exists|i: int|
            0 <= i <= s.len() && s == #[trigger] s.take(i) + needle + s.skip(i + needle.len()),
{
    let all = x + needle + y;
    let at = x.len() as int;
    assert(all.subrange(at, at + needle.len()) =~= needle);
    assert(stands_at(all, needle, at));
    if occurs(s, needle) {
        let i = choose|i: int| stands_at(s, needle, i);
        assert(s =~= s.take(i) + s.subrange(i, i + needle.len()) + s.skip(i + needle.len()));
    }
}

/// A text without a separator is one piece, and a separator starts another.
pub proof fn law_separators_part_pieces(s: Seq<char>, sep: char, t: Seq<char>, a: char, b: char)
    requires
        sep == a || sep == b,
        forall|i: int| 0 <= i < t.len() ==> #[trigger] t[i] != a && t[i] != b,
    ensures
        pieces(t, a, b) == seq![t],
        pieces(s.push(sep) + t, a, b) == pieces(s, a, b).push(t),
    decreases t.len(),
{
    let all = s.push(sep) + t;
    if t.len() == 0 {
        assert(all =~= s.push(sep));
        assert(all.drop_last() =~= s);
        assert(t =~= Seq::<char>::empty());
    } else {
        let before = pieces(s, a, b);
        let u = t.drop_last();
        law_separators_part_pieces(s, sep, u, a, b);
        assert(all.drop_last() =~= s.push(sep) + u);
        assert(u.push(t.last()) =~= t);
        assert(seq![u].update(0, u.push(t.last())) =~= seq![t]);
        assert(before.push(u).update(before.len() as int, t) =~= before.push(t));
    }
}

/// A text is parted at the first place of a separator, and what is behind it is
/// parted in the same way; without one it stays whole.
pub proof fn law_split_parts_at_the_first_place(x: Seq<char>, sep: Seq<char>, y: Seq<char>)
    requires
        sep.len() > 0,
        forall|i: int| 0 <= i < x.len() ==> !stands_at(x + sep, sep, i),
    ensures
        split(x + sep + y, sep) == seq![x] + split(y, sep),
        !occurs(y, sep) ==> split(y, sep) == seq![y],
{
    let all = x + sep + y;
    let at = x.len() as int;
    law_occurs_in_the_middle(x, sep, y, all);
    assert forall|i: int| 0 <= i < at implies !stands_at(all, sep, i) by {
        assert(!stands_at(x + sep, sep, i));
        assert(all.subrange(i, i + sep.len()) =~= (x + sep).subrange(i, i + sep.len()));
    }
    lemma_place(all, sep, 0);
    assert(all.take(at) =~= x);
    assert(all.skip(at + sep.len()) =~= y);
    lemma_place(y, sep, 0);
}

/// Texts are joined in order with the separator between any two of them and
/// nowhere else.
pub proof fn law_joined_has_separators_between(parts: Seq<Seq<char>>, part: Seq<char>, sep: Seq<char>)
    ensures
        joined(Seq::<Seq<char>>::empty(), sep).len() == 0,
        joined(seq![part], sep) == part,
        parts.len() > 0 ==> joined(parts.push(part), sep) == joined(parts, sep) + sep + part,
{
    assert(parts.push(part).drop_last() =~= parts);
}

proof fn lemma_joined_front(head: Seq<char>, rest: Seq<Seq<char>>, sep: Seq<char>)
    requires
        rest.len() > 0,
    ensures
        joined(seq![head] + rest, sep) == head + sep + joined(rest, sep),
    decreases rest.len(),
{
    let all = seq![head] + rest;
    if rest.len() == 1 {
        assert(all.drop_last() =~= seq![head]);
        assert(joined(seq![head], sep) == head);
        assert(all.last() == joined(rest, sep));
    } else {
        lemma_joined_front(head, rest.drop_last(), sep);
        assert(all.drop_last() =~= seq![head] + rest.drop_last());
        assert(joined(all, sep) =~= head + sep + joined(rest, sep));
    }
}

proof fn lemma_split_is_some(s: Seq<char>, sep: Seq<char>)
    ensures
        split(s, sep).len() > 0,
    decreases s.len(),
{
}

/// Joining what was parted gives the text back, and no part holds the separator.
pub proof fn law_split_then_join_is_nothing(s: Seq<char>, sep: Seq<char>)
    requires
        sep.len() > 0,
    ensures
        joined(split(s, sep), sep) == s,
        forall|i: int| 0 <= i < split(s, sep).len() ==> !occurs(#[trigger] split(s, sep)[i], sep),
    decreases s.len(),
{
    lemma_place(s, sep, 0);
    match place_from(s, sep, 0) {
        Some(at) => {
            let head = s.take(at);
            let rest = s.skip(at + sep.len());
            law_split_then_join_is_nothing(rest, sep);
            lemma_split_is_some(rest, sep);
            lemma_joined_front(head, split(rest, sep), sep);
            assert(s =~= head + s.subrange(at, at + sep.len()) + rest);
            assert forall|j: int| !stands_at(head, sep, j) by {
                if stands_at(head, sep, j) {
                    assert(s.subrange(j, j + sep.len()) =~= head.subrange(j, j + sep.len()));
                    assert(stands_at(s, sep, j));
                }
            }
            assert forall|i: int| 0 <= i < split(s, sep).len() implies !occurs(
                #[trigger] split(s, sep)[i],
                sep,
            ) by {
                if i > 0 {
                    assert(split(s, sep)[i] == split(rest, sep)[i - 1]);
                }
            }
        },
        None => {},
    }
}

/// The first place of a text is replaced, and then those behind it; a text without
/// a place stays as it is.
pub proof fn law_every_place_is_replaced(
    x: Seq<char>,
    from: Seq<char>,
    to: Seq<char>,
    y: Seq<char>,
)
    requires
        from.len() > 0,
        forall|i: int| 0 <= i < x.len() ==> !stands_at(x + from, from, i),
    ensures
        replaced(x + from + y, from, to) == x + to + replaced(y, from, to),
        !occurs(y, from) ==> replaced(y, from, to) == y,
{
    law_split_parts_at_the_first_place(x, from, y);
    lemma_split_is_some(y, from);
    lemma_joined_front(x, split(y, from), to);
}

/// Capitals become the small letters at the same place of the alphabet; nothing
/// else changes.
pub proof fn law_small_letters(i: int, c: char)
    requires
        0 <= i < 26,
    ensures
        ascii_lower((65 + i) as char) == (97 + i) as char,
        !(65 <= c as u32 <= 90) ==> ascii_lower(c) == c,
        lower_text(seq![c]) == seq![ascii_lower(c)],
{
    assert(lower_text(seq![c]) =~= seq![ascii_lower(c)]);
}

/// Text with one part behind another: what stands in the front stands in the
/// whole.
pub proof fn lemma_occurs_in_front(s: Seq<char>, t: Seq<char>, needle: Seq<char>)
    requires
        occurs(s, needle),
    ensures
        occurs(s + t, needle),
{
    let i = choose|i: int| stands_at(s, needle, i);
    assert((s + t).subrange(i, i + needle.len()) =~= s.subrange(i, i + needle.len()));
    assert(stands_at(s + t, needle, i));
}

/// The words of two texts with white space between them are the words of the
/// one and then those of the other.
pub proof fn lemma_spans_behind_a_gap(x: Seq<char>, gap: Seq<char>, y: Seq<char>)
    requires
        gap.len() > 0,
        forall|i: int| 0 <= i < gap.len() ==> is_space(#[trigger] gap[i]),
    ensures
        spans(x + gap + y).len() == spans(x).len() + spans(y).len(),
        spans(x + gap + y).take(spans(x).len() as int) == spans(x),
        words(x + gap + y) == words(x) + words(y),
    decreases y.len(),
{
    let head = x + gap;
    let all = head + y;
    lemma_spans_with_gap(x, gap);
    lemma_shifted_spans(head, y);
    lemma_spans(x);
    lemma_spans(y);
    assert(spans(all).take(spans(x).len() as int) =~= spans(x));
    assert forall|i: int| 0 <= i < spans(all).len() implies words(all)[i] == (words(x)
        + words(y))[i] by {
        if i < spans(x).len() {
            let (a, b) = spans(x)[i];
            assert(all.subrange(a, b) =~= x.subrange(a, b));
        } else {
            let (a, b) = spans(y)[i - spans(x).len()];
            assert(all.subrange(a + head.len(), b + head.len()) =~= y.subrange(a, b));
        }
    }
    assert(words(all) =~= words(x) + words(y));
}

proof fn lemma_shifted_spans(head: Seq<char>, y: Seq<char>)
    requires
        head.len() > 0,
        is_space(head.last()),
    ensures
        spans(head + y).len() == spans(head).len() + spans(y).len(),
        forall|i: int|
            0 <= i < spans(head).len() ==> #[trigger] spans(head + y)[i] == spans(head)[i],
        forall|i: int|
            spans(head).len() <= i < spans(head + y).len() ==> #[trigger] spans(head + y)[i] == ((
                spans(y)[i - spans(head).len()].0 + head.len(),
                spans(y)[i - spans(head).len()].1 + head.len(),
            )),
    decreases y.len(),
{
    let all = head + y;
    if y.len() == 0 {
        assert(all =~= head);
    } else {
        let u = y.drop_last();
        lemma_shifted_spans(head, u);
        lemma_spans(u);
        assert(all.drop_last() =~= head + u);
        assert(all.last() == y.last());
        assert(all[all.len() - 2] == (if y.len() > 1 {
            y[y.len() - 2]
        } else {
            head.last()
        }));
        if !is_space(y.last()) && y.len() > 1 && !is_space(y[y.len() - 2]) {
            assert(u.last() == y[y.len() - 2]);
        }
    }
}

// ─── Texts strung together ─────────────────────────────────────────────

/// The texts one behind the other.
pub open spec fn strung(parts: Seq<Seq<char>>) -> Seq<char>
    decreases parts.len(),
{
    if parts.len() == 0 {
        Seq::empty()
    } else {
        strung(parts.drop_last()) + parts.last()
    }
}

/// One more text comes behind the others.
pub proof fn lemma_strung_push(parts: Seq<Seq<char>>, part: Seq<char>)
    ensures
        strung(parts.push(part)) == strung(parts) + part,
{
    assert(parts.push(part).drop_last() =~= parts);
}

/// Any neighbours among the texts stand in the whole.
pub proof fn lemma_strung_holds(parts: Seq<Seq<char>>, i: int, j: int)
    requires
        0 <= i <= j <= parts.len(),
    ensures
        occurs(strung(parts), strung(parts.subrange(i, j))),
    decreases parts.len(),
{
    let needle = strung(parts.subrange(i, j));
    if j < parts.len() {
        lemma_strung_holds(parts.drop_last(), i, j);
        assert(parts.drop_last().subrange(i, j) =~= parts.subrange(i, j));
        lemma_occurs_in_front(strung(parts.drop_last()), parts.last(), needle);
    } else if i == j {
        law_occurs_in_the_middle(strung(parts), needle, Seq::empty(), needle);
        assert(strung(parts) + needle + Seq::<char>::empty() =~= strung(parts));
    } else {
        lemma_strung_parted(parts, i);
        assert(parts.subrange(i, j) =~= parts.skip(i));
        law_occurs_in_the_middle(strung(parts.take(i)), needle, Seq::empty(), needle);
        assert(strung(parts.take(i)) + needle + Seq::<char>::empty() =~= strung(parts));
    }
}

proof fn lemma_strung_parted(parts: Seq<Seq<char>>, i: int)
    requires
        0 <= i <= parts.len(),
    ensures
        strung(parts) == strung(parts.take(i)) + strung(parts.skip(i)),
    decreases parts.len(),
{
    if i == parts.len() {
        assert(parts.take(i) =~= parts);
        assert(strung(parts) + Seq::<char>::empty() =~= strung(parts));
    } else {
        lemma_strung_parted(parts.drop_last(), i);
        assert(parts.drop_last().take(i) =~= parts.take(i));
        assert(parts.drop_last().skip(i) =~= parts.skip(i).drop_last());
        assert(strung(parts) =~= strung(parts.take(i)) + strung(parts.skip(i)));
    }
}

/// Two neighbours and the beginning of the third stand in the whole.
pub proof fn lemma_strung_line(parts: Seq<Seq<char>>, i: int, end: Seq<char>)
    requires
        0 <= i && i + 3 <= parts.len(),
        end.is_prefix_of(parts[i + 2]),
    ensures
        occurs(strung(parts), parts[i] + parts[i + 1] + end),
{
    let (a, b, c) = (parts[i], parts[i + 1], parts[i + 2]);
    lemma_strung_holds(parts, i, i + 3);
    let three = parts.subrange(i, i + 3);
    assert(three.drop_last() =~= seq![a, b]);
    assert(seq![a, b].drop_last() =~= seq![a]);
    assert(seq![a].drop_last() =~= Seq::<Seq<char>>::empty());
    assert(strung(seq![a]) =~= a) by {
        assert(strung(Seq::<Seq<char>>::empty()) == Seq::<char>::empty());
    }
    assert(strung(seq![a, b]) == a + b);
    assert(strung(three) == a + b + c);
    let rest = c.skip(end.len() as int);
    assert(c =~= end + rest);
    assert(a + b + c =~= Seq::<char>::empty() + (a + b + end) + rest);
    lemma_occurs_part(strung(parts), Seq::empty(), a + b + end, rest);
}

/// What stands in a part of a text stands in the text.
pub proof fn lemma_occurs_part(s: Seq<char>, x: Seq<char>, needle: Seq<char>, y: Seq<char>)
    requires
        occurs(s, x + needle + y),
    ensures
        occurs(s, needle),
{
    let all = x + needle + y;
    let i = choose|i: int| stands_at(s, all, i);
    let at = i + x.len();
    assert(s.subrange(at, at + needle.len()) =~= s.subrange(i, i + all.len()).subrange(
        x.len() as int,
        x.len() as int + needle.len(),
    ));
    assert(all.subrange(x.len() as int, x.len() as int + needle.len()) =~= needle);
    assert(stands_at(s, needle, at));
}

} // verus!
