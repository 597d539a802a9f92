//! Text as sequences of characters: replacing, trimming, splitting into words.
use vstd::prelude::*;

verus! {

/// `String::push` puts the character behind the text.
pub assume_specification[ String::push ](text: &mut String, ch: char)
    ensures
        final(text)@ == old(text)@.push(ch),
;

/// The characters that have the Unicode property `White_Space`.
pub open spec fn is_white_space(c: char) -> bool {
    ||| 0x09 <= c as u32 <= 0x0d
    ||| c as u32 == 0x20
    ||| c as u32 == 0x85
    ||| c as u32 == 0xa0
    ||| c as u32 == 0x1680
    ||| 0x2000 <= c as u32 <= 0x200a
    ||| c as u32 == 0x2028
    ||| c as u32 == 0x2029
    ||| c as u32 == 0x202f
    ||| c as u32 == 0x205f
    ||| c as u32 == 0x3000
}

/// The property [`is_white_space`] as a value.
pub open spec fn white_space() -> spec_fn(char) -> bool {
    |c: char| is_white_space(c)
}

/// The property of being the character `ch`.
pub open spec fn equal_to(ch: char) -> spec_fn(char) -> bool {
    |c: char| c == ch
}

/// `text` without the leading characters that have the property `drop`.
pub open spec fn trim_start(text: Seq<char>, drop: spec_fn(char) -> bool) -> Seq<char>
    decreases text.len(),
{
    if text.len() > 0 && drop(text[0]) {
        trim_start(text.drop_first(), drop)
    } else {
        text
    }
}

/// `text` without the trailing characters that have the property `drop`.
pub open spec fn trim_end(text: Seq<char>, drop: spec_fn(char) -> bool) -> Seq<char>
    decreases text.len(),
{
    if text.len() > 0 && drop(text.last()) {
        trim_end(text.drop_last(), drop)
    } else {
        text
    }
}

/// `text` without the characters at either end that have the property `drop`.
pub open spec fn trim_both(text: Seq<char>, drop: spec_fn(char) -> bool) -> Seq<char> {
    trim_end(trim_start(text, drop), drop)
}

/// What trimming leaves is a stretch of the text, and holds nothing to drop at its start.
pub proof fn lemma_trim_start(text: Seq<char>, drop: spec_fn(char) -> bool)
    ensures
        exists|n: int|
            0 <= n <= text.len() && trim_start(text, drop) == #[trigger] text.subrange(
                n,
                text.len() as int,
            ),
        trim_start(text, drop).len() > 0 ==> !drop(trim_start(text, drop)[0]),
    decreases text.len(),
{
    if text.len() > 0 && drop(text[0]) {
        lemma_trim_start(text.drop_first(), drop);
        let rest = text.drop_first();
        let n = choose|n: int|
            0 <= n <= rest.len() && trim_start(rest, drop) == #[trigger] rest.subrange(
                n,
                rest.len() as int,
            );
        assert(rest.subrange(n, rest.len() as int) =~= text.subrange(n + 1, text.len() as int));
    } else {
        assert(text.subrange(0, text.len() as int) =~= text);
    }
}

/// What trimming leaves is a stretch of the text, and holds nothing to drop at its end.
pub proof fn lemma_trim_end(text: Seq<char>, drop: spec_fn(char) -> bool)
    ensures
        exists|n: int|
            0 <= n <= text.len() && trim_end(text, drop) == #[trigger] text.subrange(0, n),
        trim_end(text, drop).len() > 0 ==> !drop(trim_end(text, drop).last()),
    decreases text.len(),
{
    if text.len() > 0 && drop(text.last()) {
        lemma_trim_end(text.drop_last(), drop);
        let rest = text.drop_last();
        let n = choose|n: int|
            0 <= n <= rest.len() && trim_end(rest, drop) == #[trigger] rest.subrange(0, n);
        assert(rest.subrange(0, n) =~= text.subrange(0, n));
    } else {
        assert(text.subrange(0, text.len() as int) =~= text);
    }
}

/// What trimming both ends leaves is a stretch of the text, and holds nothing to drop at its ends.
pub proof fn lemma_trim_both(text: Seq<char>, drop: spec_fn(char) -> bool)
    ensures
        exists|a: int, b: int|
            0 <= a <= b <= text.len() && trim_both(text, drop) == #[trigger] text.subrange(a, b),
        trim_both(text, drop).len() > 0 ==> !drop(trim_both(text, drop)[0]) && !drop(
            trim_both(text, drop).last(),
        ),
{
    let start = trim_start(text, drop);
    lemma_trim_start(text, drop);
    lemma_trim_end(start, drop);
    let a = choose|n: int|
        0 <= n <= text.len() && start == #[trigger] text.subrange(n, text.len() as int);
    let n = choose|n: int|
        0 <= n <= start.len() && trim_end(start, drop) == #[trigger] start.subrange(0, n);
    assert(start.subrange(0, n) =~= text.subrange(a, a + n));
}

/// Where trimming cuts: what lies before and behind has the property, and what is left does not have
/// it at its ends.
pub proof fn lemma_trimmed_off(text: Seq<char>, drop: spec_fn(char) -> bool) -> (r: (int, int))
    ensures
        0 <= r.0 <= r.1 <= text.len(),
        trim_both(text, drop) == text.subrange(r.0, r.1),
        forall|i: int| 0 <= i < r.0 || r.1 <= i < text.len() ==> drop(#[trigger] text[i]),
        r.0 < r.1 ==> !drop(text[r.0]) && !drop(text[r.1 - 1]),
{
    let a = lemma_cut_at_start(text, drop);
    let start = trim_start(text, drop);
    let n = lemma_cut_at_end(start, drop);
    assert(start.subrange(0, n) =~= text.subrange(a, a + n));
    assert forall|i: int| 0 <= i < a || a + n <= i < text.len() implies drop(#[trigger] text[i]) by {
        if a + n <= i {
            assert(start[i - a] == text[i]);
        }
    }
    if n > 0 {
        assert(start[0] == text[a] && start[n - 1] == text[a + n - 1]);
    }
    (a, a + n)
}

/// Where trimming cuts at the start.
proof fn lemma_cut_at_start(text: Seq<char>, drop: spec_fn(char) -> bool) -> (n: int)
    ensures
        0 <= n <= text.len(),
        trim_start(text, drop) == text.subrange(n, text.len() as int),
        forall|i: int| 0 <= i < n ==> drop(#[trigger] text[i]),
        n < text.len() ==> !drop(text[n]),
    decreases text.len(),
{
    if text.len() > 0 && drop(text[0]) {
        let rest = text.drop_first();
        let n = lemma_cut_at_start(rest, drop);
        assert(rest.subrange(n, rest.len() as int) =~= text.subrange(n + 1, text.len() as int));
        assert forall|i: int| 0 <= i < n + 1 implies drop(#[trigger] text[i]) by {
            if i > 0 {
                assert(rest[i - 1] == text[i]);
            }
        }
        n + 1
    } else {
        assert(text.subrange(0, text.len() as int) =~= text);
        0
    }
}

/// Where trimming cuts at the end.
proof fn lemma_cut_at_end(text: Seq<char>, drop: spec_fn(char) -> bool) -> (n: int)
    ensures
        0 <= n <= text.len(),
        trim_end(text, drop) == text.subrange(0, n),
        forall|i: int| n <= i < text.len() ==> drop(#[trigger] text[i]),
        n > 0 ==> !drop(text[n - 1]),
    decreases text.len(),
{
    if text.len() > 0 && drop(text.last()) {
        let rest = text.drop_last();
        let n = lemma_cut_at_end(rest, drop);
        assert(rest.subrange(0, n) =~= text.subrange(0, n));
        assert forall|i: int| n <= i < text.len() implies drop(#[trigger] text[i]) by {
            if i < rest.len() {
                assert(rest[i] == text[i]);
            }
        }
        n
    } else {
        assert(text.subrange(0, text.len() as int) =~= text);
        text.len() as int
    }
}

/// `text` with every `from` replaced by `to`.
pub open spec fn replace_char(text: Seq<char>, from: char, to: char) -> Seq<char> {
    text.map_values(|c: char| if c == from { to } else { c })
}

/// Whether a word starts at place `i`: white space or nothing before it, and no white space there.
pub open spec fn word_starts(text: Seq<char>, i: int) -> bool {
    !is_white_space(text[i]) && (i == 0 || is_white_space(text[i - 1]))
}

/// How many words, separated by white space, `text` holds.
pub open spec fn word_count(text: Seq<char>) -> nat
    decreases text.len(),
{
    if text.len() == 0 {
        0
    } else {
        word_count(text.drop_last()) + if word_starts(text, text.len() - 1) { 1nat } else { 0nat }
    }
}

/// Whether a character is white space.
pub fn white_space_char(c: char) -> (r: bool)
    ensures
        r == is_white_space(c),
{
    let code: u32 = c as u32;
    (0x09 <= code && code <= 0x0d) || code == 0x20 || code == 0x85 || code == 0xa0 || code == 0x1680
        || (0x2000 <= code && code <= 0x200a) || code == 0x2028 || code == 0x2029 || code == 0x202f
        || code == 0x205f || code == 0x3000
}

/// The characters of a text.
pub fn chars_of(text: &str) -> (r: Vec<char>)
    ensures
        r@ == text@,
{
    let mut out: Vec<char> = Vec::new();
    for c in iter: text.chars()
        invariant
            iter.seq() == text@,
            out@ == text@.take(iter.index()),
    {
        proof {
            assert(text@.take(iter.index() + 1) =~= text@.take(iter.index()).push(c));
        }
        out.push(c);
    }
    assert(text@.take(text@.len() as int) =~= text@);
    out
}

/// The text made of the characters from `from` up to, not including, `to`.
pub fn text_between(chars: &Vec<char>, from: usize, to: usize) -> (r: String)
    requires
        from <= to <= chars@.len(),
    ensures
        r@ == chars@.subrange(from as int, to as int),
{
    let mut out: String = String::new();
    let mut i: usize = from;
    while i < to
        invariant
            from <= i <= to <= chars@.len(),
            out@ == chars@.subrange(from as int, i as int),
        decreases to - i,
    {
        assert(chars@.subrange(from as int, i + 1) =~= chars@.subrange(from as int, i as int).push(
            chars@[i as int],
        ));
        out.push(chars[i]);
        i = i + 1;
    }
    out
}

/// The text made of the given characters.
pub fn text_of(chars: &Vec<char>) -> (r: String)
    ensures
        r@ == chars@,
{
    assert(chars@.subrange(0, chars@.len() as int) =~= chars@);
    text_between(chars, 0, chars.len())
}

/// A text with one character replaced by another throughout.
pub fn with_char_replaced(text: &str, from: char, to: char) -> (r: String)
    ensures
        r@ == replace_char(text@, from, to),
{
    let chars: Vec<char> = chars_of(text);
    let mut out: String = String::new();
    let mut i: usize = 0;
    while i < chars.len()
        invariant
            chars@ == text@,
            i <= chars@.len(),
            out@ == replace_char(text@.take(i as int), from, to),
        decreases chars@.len() - i,
    {
        let c: char = chars[i];
        proof {
            assert(text@.take(i + 1) =~= text@.take(i as int).push(c));
            assert(replace_char(text@.take(i + 1), from, to) =~= replace_char(
                text@.take(i as int),
                from,
                to,
            ).push(if c == from { to } else { c }));
        }
        out.push(if c == from { to } else { c });
        i = i + 1;
    }
    assert(text@.take(text@.len() as int) =~= text@);
    out
}

/// Whether two texts are the same.
pub fn same_text(a: &str, b: &str) -> (r: bool)
    ensures
        r == (a@ == b@),
{
    let x: String = a.to_owned();
    let y: String = b.to_owned();
    x == y
}

/// A text without the white space at either end.
pub fn trimmed(chars: &Vec<char>) -> (r: Vec<char>)
    ensures
        r@ == trim_both(chars@, white_space()),
{
    let mut from: usize = 0;
    assert(chars@.skip(0) =~= chars@);
    while from < chars.len() && white_space_char(chars[from])
        invariant
            from <= chars@.len(),
            trim_start(chars@, white_space()) == trim_start(chars@.skip(from as int), white_space()),
        decreases chars@.len() - from,
    {
        assert(chars@.skip(from as int).drop_first() =~= chars@.skip(from + 1));
        from = from + 1;
    }
    let ghost start = chars@.skip(from as int);
    let mut to: usize = chars.len();
    assert(start =~= chars@.subrange(from as int, to as int));
    while from < to && white_space_char(chars[to - 1])
        invariant
            from <= to <= chars@.len(),
            trim_end(start, white_space()) == trim_end(
                chars@.subrange(from as int, to as int),
                white_space(),
            ),
        decreases to,
    {
        assert(chars@.subrange(from as int, to as int).drop_last() =~= chars@.subrange(
            from as int,
            to - 1,
        ));
        to = to - 1;
    }
    slice_of(chars, from, to)
}

/// A text without the occurrences of `ch` at either end.
pub fn trimmed_of(chars: &Vec<char>, ch: char) -> (r: Vec<char>)
    ensures
        r@ == trim_both(chars@, equal_to(ch)),
{
    let mut from: usize = 0;
    assert(chars@.skip(0) =~= chars@);
    while from < chars.len() && chars[from] == ch
        invariant
            from <= chars@.len(),
            trim_start(chars@, equal_to(ch)) == trim_start(chars@.skip(from as int), equal_to(ch)),
        decreases chars@.len() - from,
    {
        assert(chars@.skip(from as int).drop_first() =~= chars@.skip(from + 1));
        from = from + 1;
    }
    let ghost start = chars@.skip(from as int);
    let mut to: usize = chars.len();
    assert(start =~= chars@.subrange(from as int, to as int));
    while from < to && chars[to - 1] == ch
        invariant
            from <= to <= chars@.len(),
            trim_end(start, equal_to(ch)) == trim_end(
                chars@.subrange(from as int, to as int),
                equal_to(ch),
            ),
        decreases to,
    {
        assert(chars@.subrange(from as int, to as int).drop_last() =~= chars@.subrange(
            from as int,
            to - 1,
        ));
        to = to - 1;
    }
    slice_of(chars, from, to)
}

/// The characters from `from` up to, not including, `to`.
fn slice_of(chars: &Vec<char>, from: usize, to: usize) -> (r: Vec<char>)
    requires
        from <= to <= chars@.len(),
    ensures
        r@ == chars@.subrange(from as int, to as int),
{
    let mut out: Vec<char> = Vec::new();
    let mut i: usize = from;
    while i < to
        invariant
            from <= i <= to <= chars@.len(),
            out@ == chars@.subrange(from as int, i as int),
        decreases to - i,
    {
        assert(chars@.subrange(from as int, i + 1) =~= chars@.subrange(from as int, i as int).push(
            chars@[i as int],
        ));
        out.push(chars[i]);
        i = i + 1;
    }
    out
}

/// How many words a text holds.
pub fn count_words(chars: &Vec<char>) -> (r: usize)
    ensures
        r == word_count(chars@),
{
    let mut count: usize = 0;
    let mut i: usize = 0;
    let mut in_word: bool = false;
    while i < chars.len()
        invariant
            i <= chars@.len(),
            count <= i,
            count == word_count(chars@.take(i as int)),
            in_word == (i > 0 && !is_white_space(chars@[i - 1])),
        decreases chars@.len() - i,
    {
        let blank: bool = white_space_char(chars[i]);
        assert(chars@.take(i + 1).drop_last() =~= chars@.take(i as int));
        if !blank && !in_word {
            count = count + 1;
        }
        in_word = !blank;
        i = i + 1;
    }
    assert(chars@.take(chars@.len() as int) =~= chars@);
    count
}

/// White space around a text makes no difference to what trimming leaves.
pub proof fn law_padding_is_trimmed(before: Seq<char>, text: Seq<char>, behind: Seq<char>)
    requires
        forall|i: int| 0 <= i < before.len() ==> is_white_space(#[trigger] before[i]),
        forall|i: int| 0 <= i < behind.len() ==> is_white_space(#[trigger] behind[i]),
    ensures
        trim_both(before + text + behind, white_space()) == trim_both(text, white_space()),
{
    let whole = before + text + behind;
    let n = before.len() as int;
    let (a, b) = lemma_trimmed_off(text, white_space());
    let (c, d) = lemma_trimmed_off(whole, white_space());
    assert forall|i: int| 0 <= i < whole.len() && !white_space()(#[trigger] whole[i]) implies n <= i
        < n + text.len() && whole[i] == text[i - n] by {
        if i < n {
            assert(whole[i] == before[i]);
        } else if i >= n + text.len() {
            assert(whole[i] == behind[i - n - text.len()]);
        }
    }
    if a < b {
        assert(whole[n + a] == text[a] && whole[n + b - 1] == text[b - 1]);
        assert(c < d);
        assert(whole[c] == text[c - n] && whole[d - 1] == text[d - 1 - n]);
        assert(c == n + a && d == n + b);
        assert(whole.subrange(c, d) =~= text.subrange(a, b));
    } else {
        if c < d {
            assert(whole[c] == text[c - n]);
        }
        assert(whole.subrange(c, d) =~= text.subrange(a, b));
    }
}

/// A text without white space is one word, and white space between two texts keeps their words apart.
pub proof fn law_words_add_up(a: Seq<char>, gap: char, b: Seq<char>)
    requires
        is_white_space(gap),
    ensures
        a.len() > 0 && (forall|i: int| 0 <= i < a.len() ==> !is_white_space(#[trigger] a[i]))
            ==> word_count(a) == 1,
        word_count(a + seq![gap] + b) == word_count(a) + word_count(b),
    decreases b.len(),
{
    if a.len() > 0 && (forall|i: int| 0 <= i < a.len() ==> !is_white_space(#[trigger] a[i])) {
        lemma_one_word(a);
    }
    let whole = a + seq![gap] + b;
    if b.len() == 0 {
        assert(whole.drop_last() =~= a);
        assert(whole.last() == gap);
    } else {
        law_words_add_up(a, gap, b.drop_last());
        assert(whole.drop_last() =~= a + seq![gap] + b.drop_last());
        let last = b.len() - 1;
        assert(whole[a.len() + 1 + last] == b[last]);
        if last > 0 {
            assert(whole[a.len() + last] == b[last - 1]);
        } else {
            assert(whole[a.len() as int] == gap);
        }
        assert(word_starts(whole, whole.len() - 1) == word_starts(b, last));
    }
}

/// A text without white space is one word.
proof fn lemma_one_word(a: Seq<char>)
    requires
        a.len() > 0,
        forall|i: int| 0 <= i < a.len() ==> !is_white_space(#[trigger] a[i]),
    ensures
        word_count(a) == 1,
    decreases a.len(),
{
    let rest = a.drop_last();
    if rest.len() > 0 {
        assert forall|i: int| 0 <= i < rest.len() implies !is_white_space(#[trigger] rest[i]) by {
            assert(rest[i] == a[i]);
        }
        lemma_one_word(rest);
        assert(!is_white_space(a[a.len() - 2]));
        assert(!word_starts(a, a.len() - 1));
    } else {
        assert(word_starts(a, 0));
        assert(word_count(rest) == 0);
    }
}

} // verus!
