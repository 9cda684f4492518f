//! Character classes, splitting, trimming and number rendering shared by the
//! parsers and formatters of this crate.

use vstd::prelude::*;

verus! {

/// ASCII decimal digit `0-9`.
pub open spec fn is_digit(c: char) -> bool {
    '0' <= c && c <= '9'
}

/// ASCII letter `a-z` or `A-Z`.
pub open spec fn is_ascii_letter(c: char) -> bool {
    ('a' <= c && c <= 'z') || ('A' <= c && c <= 'Z')
}

/// ASCII letter or digit.
pub open spec fn is_ascii_alnum(c: char) -> bool {
    is_digit(c) || is_ascii_letter(c)
}

/// Whether `c` is one of the 128 ASCII characters.
pub open spec fn is_ascii_char(c: char) -> bool {
    (c as int) < 128
}

/// ASCII characters with the Unicode `White_Space` property.
pub open spec fn is_ascii_space(c: char) -> bool {
    c == ' ' || c == '\t' || c == '\n' || c == '\r' || c == '\x0B' || c == '\x0C'
}

/// Result of `char::is_alphanumeric` (Unicode `Alphabetic` or numeric category).
pub uninterp spec fn unicode_alphanumeric(c: char) -> bool;

/// Result of `char::is_whitespace` (Unicode `White_Space` property).
pub uninterp spec fn unicode_whitespace(c: char) -> bool;

/// Calls `char::is_alphanumeric`.  The result is named by
/// `unicode_alphanumeric`; on ASCII input it is true exactly for letters and
/// digits, as the Unicode tables that std follows assign them.
#[verifier::external_body]
pub fn char_is_alphanumeric(c: char) -> (r: bool)
    ensures
        r == unicode_alphanumeric(c),
        is_ascii_char(c) ==> (r <==> is_ascii_alnum(c)),
{
    c.is_alphanumeric()
}

/// Calls `char::is_whitespace`.  The result is named by `unicode_whitespace`;
/// on ASCII input it is true exactly for space, tab, line feed, vertical tab,
/// form feed and carriage return.
#[verifier::external_body]
pub fn char_is_whitespace(c: char) -> (r: bool)
    ensures
        r == unicode_whitespace(c),
        is_ascii_char(c) ==> (r <==> is_ascii_space(c)),
{
    c.is_whitespace()
}

/// Appends one character to a `String`.
pub assume_specification[ String::push ](s: &mut String, ch: char)
    ensures
        final(s)@ == old(s)@.push(ch),
;

// ------------------------------------------------------------------------
// Splitting and joining
// ------------------------------------------------------------------------

/// The pieces of `s` between separator characters, as `str::split` yields
/// them: always at least one piece, empty pieces kept.
pub open spec fn split_where(s: Seq<char>, is_sep: spec_fn(char) -> bool) -> Seq<Seq<char>>
    decreases s.len(),
{
    if s.len() == 0 {
        seq![Seq::<char>::empty()]
    } else {
        let prev = split_where(s.drop_last(), is_sep);
        if is_sep(s.last()) {
            prev.push(Seq::<char>::empty())
        } else {
            prev.update(prev.len() - 1, prev.last().push(s.last()))
        }
    }
}

/// The separator predicate that matches one character.
pub open spec fn is_char(c: char) -> spec_fn(char) -> bool {
    |x: char| x == c
}

/// `str::split(c)` on a character separator.
pub open spec fn split_on(s: Seq<char>, c: char) -> Seq<Seq<char>> {
    split_where(s, is_char(c))
}

/// `parts.join(sep)` with a one-character separator.
pub open spec fn join_with(parts: Seq<Seq<char>>, sep: Seq<char>) -> Seq<char>
    decreases parts.len(),
{
    if parts.len() == 0 {
        Seq::empty()
    } else if parts.len() == 1 {
        parts[0]
    } else {
        join_with(parts.drop_last(), sep) + sep + parts.last()
    }
}

/// Whether no character of `s` is a separator.
pub open spec fn free_of(s: Seq<char>, is_sep: spec_fn(char) -> bool) -> bool {
    forall|i: int| 0 <= i < s.len() ==> !is_sep(#[trigger] s[i])
}

pub proof fn lemma_split_len(s: Seq<char>, is_sep: spec_fn(char) -> bool)
    ensures
        split_where(s, is_sep).len() >= 1,
    decreases s.len(),
{
    if s.len() > 0 {
        lemma_split_len(s.drop_last(), is_sep);
    }
}

/// A piece free of separators splits into itself.
pub proof fn lemma_split_free(s: Seq<char>, is_sep: spec_fn(char) -> bool)
    requires
        free_of(s, is_sep),
    ensures
        split_where(s, is_sep) == seq![s],
    decreases s.len(),
{
    if s.len() > 0 {
        assert(!is_sep(s[s.len() - 1]));
        lemma_split_free(s.drop_last(), is_sep);
        assert(s.drop_last().push(s.last()) =~= s);
        assert(split_where(s, is_sep) =~= seq![s]);
    } else {
        assert(s =~= Seq::<char>::empty());
    }
}

/// Pieces of a split are free of separators.
pub proof fn lemma_split_pieces_free(s: Seq<char>, is_sep: spec_fn(char) -> bool)
    ensures
        forall|i: int|
            0 <= i < split_where(s, is_sep).len() ==> free_of(
                #[trigger] split_where(s, is_sep)[i],
                is_sep,
            ),
    decreases s.len(),
{
    if s.len() > 0 {
        lemma_split_pieces_free(s.drop_last(), is_sep);
        lemma_split_len(s.drop_last(), is_sep);
        let prev = split_where(s.drop_last(), is_sep);
        let cur = split_where(s, is_sep);
        assert forall|i: int| 0 <= i < cur.len() implies free_of(#[trigger] cur[i], is_sep) by {
            if i < prev.len() - 1 {
                assert(cur[i] == prev[i]);
            } else if !is_sep(s.last()) && i == prev.len() - 1 {
                let p = prev[i];
                assert(cur[i] == p.push(s.last()));
                assert(free_of(p, is_sep));
                assert forall|k: int| 0 <= k < cur[i].len() implies !is_sep(#[trigger] cur[i][k]) by {
                    if k < p.len() {
                        assert(cur[i][k] == p[k]);
                    }
                }
            } else if i == prev.len() - 1 {
                assert(cur[i] == prev[i]);
            }
        }
    }
}

/// Splitting `a + [c] + b` at a separator `c` splits `a` and `b` apart.
pub proof fn lemma_split_concat(a: Seq<char>, c: char, b: Seq<char>, is_sep: spec_fn(char) -> bool)
    requires
        is_sep(c),
    ensures
        split_where(a.push(c) + b, is_sep) == split_where(a, is_sep) + split_where(b, is_sep),
    decreases b.len(),
{
    lemma_split_len(a, is_sep);
    lemma_split_len(b, is_sep);
    if b.len() == 0 {
        assert(a.push(c) + b =~= a.push(c));
        assert(a.push(c).drop_last() =~= a);
        assert(split_where(a, is_sep).push(Seq::<char>::empty()) =~= split_where(a, is_sep)
            + split_where(b, is_sep));
    } else {
        let b0 = b.drop_last();
        lemma_split_concat(a, c, b0, is_sep);
        lemma_split_len(b0, is_sep);
        let whole = a.push(c) + b;
        assert(whole.drop_last() =~= a.push(c) + b0);
        assert(whole.last() == b.last());
        let sa = split_where(a, is_sep);
        let sb0 = split_where(b0, is_sep);
        if is_sep(b.last()) {
            assert(split_where(whole, is_sep) =~= sa + sb0.push(Seq::<char>::empty()));
        } else {
            let prev = sa + sb0;
            assert(prev.update(prev.len() - 1, prev.last().push(b.last())) =~= sa + sb0.update(
                sb0.len() - 1,
                sb0.last().push(b.last()),
            ));
        }
    }
}

/// Joining separator-free pieces and splitting again gives the pieces back.
pub proof fn lemma_split_join(parts: Seq<Seq<char>>, c: char, is_sep: spec_fn(char) -> bool)
    requires
        parts.len() >= 1,
        is_sep(c),
        forall|i: int| 0 <= i < parts.len() ==> free_of(#[trigger] parts[i], is_sep),
    ensures
        split_where(join_with(parts, seq![c]), is_sep) == parts,
    decreases parts.len(),
{
    if parts.len() == 1 {
        lemma_split_free(parts[0], is_sep);
        assert(seq![parts[0]] =~= parts);
    } else {
        let init = parts.drop_last();
        lemma_split_join(init, c, is_sep);
        let j = join_with(init, seq![c]);
        assert(j + seq![c] + parts.last() =~= j.push(c) + parts.last());
        lemma_split_concat(j, c, parts.last(), is_sep);
        assert(free_of(parts[parts.len() - 1], is_sep));
        lemma_split_free(parts.last(), is_sep);
        assert(init + seq![parts.last()] =~= parts);
    }
}

/// Splits a character sequence at every occurrence of `sep`.
pub fn split_chars(s: &[char], sep: char) -> (parts: Vec<Vec<char>>)
    ensures
        parts@.map_values(|p: Vec<char>| p@) == split_on(s@, sep),
        parts@.len() >= 1,
{
    let mut done: Vec<Vec<char>> = Vec::new();
    let mut cur: Vec<char> = Vec::new();
    let mut i: usize = 0;
    while i < s.len()
        invariant
            i <= s.len(),
            done@.map_values(|p: Vec<char>| p@).push(cur@) == split_on(s@.take(i as int), sep),
        decreases s.len() - i,
    {
        let ghost before = done@.map_values(|p: Vec<char>| p@).push(cur@);
        let c = s[i];
        assert(s@.take(i + 1).drop_last() =~= s@.take(i as int));
        if c == sep {
            let ghost old_cur = cur@;
            done.push(cur);
            cur = Vec::new();
            assert(done@.map_values(|p: Vec<char>| p@) =~= before);
            assert(done@.map_values(|p: Vec<char>| p@).push(cur@) =~= before.push(
                Seq::<char>::empty(),
            ));
        } else {
            cur.push(c);
            assert(done@.map_values(|p: Vec<char>| p@).push(cur@) =~= before.update(
                before.len() - 1,
                before.last().push(c),
            ));
        }
        i = i + 1;
    }
    assert(s@.take(s@.len() as int) =~= s@);
    done.push(cur);
    done
}

/// Joins the first `count` pieces with a separator character.
pub fn join_chars(parts: &[Vec<char>], count: usize, sep: char) -> (r: Vec<char>)
    requires
        count <= parts@.len(),
    ensures
        r@ == join_with(parts@.map_values(|p: Vec<char>| p@).take(count as int), seq![sep]),
{
    let mut r: Vec<char> = Vec::new();
    let mut i: usize = 0;
    while i < count
        invariant
            i <= count <= parts@.len(),
            r@ == join_with(parts@.map_values(|p: Vec<char>| p@).take(i as int), seq![sep]),
        decreases count - i,
    {
        let ghost views = parts@.map_values(|p: Vec<char>| p@);
        assert(views.take(i + 1).drop_last() =~= views.take(i as int));
        if i > 0 {
            r.push(sep);
        }
        let p = &parts[i];
        let mut k: usize = 0;
        let ghost base = r@;
        while k < p.len()
            invariant
                k <= p.len(),
                r@ == base + p@.take(k as int),
            decreases p.len() - k,
        {
            r.push(p[k]);
            k = k + 1;
            assert(r@ =~= base + p@.take(k as int));
        }
        assert(p@.take(p@.len() as int) =~= p@);
        i = i + 1;
        if i == 1 {
            assert(r@ =~= views.take(1)[0]);
        } else {
            assert(r@ =~= join_with(views.take(i - 1), seq![sep]) + seq![sep] + views[i - 1]);
        }
    }
    r
}

/// Splitting at a character and joining with it gives the text back.
pub proof fn lemma_join_split(s: Seq<char>, c: char)
    ensures
        join_with(split_on(s, c), seq![c]) == s,
    decreases s.len(),
{
    lemma_split_len(s, is_char(c));
    if s.len() > 0 {
        let prev = split_on(s.drop_last(), c);
        lemma_join_split(s.drop_last(), c);
        lemma_split_len(s.drop_last(), is_char(c));
        if s.last() == c {
            assert(prev.push(Seq::<char>::empty()).drop_last() =~= prev);
            assert(s.drop_last() + seq![c] + Seq::<char>::empty() =~= s);
        } else {
            let cur = prev.update(prev.len() - 1, prev.last().push(s.last()));
            assert(cur.drop_last() =~= prev.drop_last());
            if prev.len() == 1 {
                assert(prev.last() == s.drop_last());
                assert(cur[0] =~= s);
            } else {
                assert(join_with(prev, seq![c]) == join_with(prev.drop_last(), seq![c]) + seq![c]
                    + prev.last());
                assert(join_with(cur, seq![c]) =~= join_with(prev, seq![c]).push(s.last()));
                assert(s.drop_last().push(s.last()) =~= s);
            }
        }
    } else {
        assert(s =~= Seq::<char>::empty());
    }
}

// ------------------------------------------------------------------------
// Searching
// ------------------------------------------------------------------------

/// Position of the first occurrence of `c` in `s`.
pub open spec fn index_of(s: Seq<char>, c: char) -> Option<int>
    decreases s.len(),
{
    if s.len() == 0 {
        None
    } else if s[0] == c {
        Some(0)
    } else {
        match index_of(s.drop_first(), c) {
            Some(i) => Some(i + 1),
            None => None,
        }
    }
}

pub proof fn lemma_index_of(s: Seq<char>, c: char)
    ensures
        index_of(s, c) is None <==> !s.contains(c),
        index_of(s, c) matches Some(i) ==> 0 <= i < s.len() && s[i] == c && !s.take(i).contains(
            c,
        ),
    decreases s.len(),
{
    if s.len() > 0 {
        lemma_index_of(s.drop_first(), c);
        if s[0] != c {
            if s.contains(c) {
                let k = choose|k: int| 0 <= k < s.len() && #[trigger] s[k] == c;
                assert(s.drop_first()[k - 1] == c);
            }
            if let Some(i) = index_of(s.drop_first(), c) {
                assert(s[i + 1] == s.drop_first()[i]);
                if s.take(i + 1).contains(c) {
                    let k = choose|k: int| 0 <= k < i + 1 && #[trigger] s.take(i + 1)[k] == c;
                    assert(s.drop_first().take(i)[k - 1] == c);
                }
            } else {
                if s.contains(c) {
                    let k = choose|k: int| 0 <= k < s.len() && #[trigger] s[k] == c;
                    assert(s.drop_first().contains(c)) by {
                        assert(s.drop_first()[k - 1] == c);
                    }
                }
            }
        }
    }
}

/// A character occurs in a concatenation exactly when it occurs in a part.
pub proof fn lemma_contains_concat(a: Seq<char>, b: Seq<char>, c: char)
    ensures
        (a + b).contains(c) <==> a.contains(c) || b.contains(c),
{
    if (a + b).contains(c) {
        let k = choose|k: int| 0 <= k < (a + b).len() && #[trigger] (a + b)[k] == c;
        if k < a.len() {
            assert(a[k] == c);
        } else {
            assert(b[k - a.len()] == c);
        }
    }
    if a.contains(c) {
        let k = choose|k: int| 0 <= k < a.len() && #[trigger] a[k] == c;
        assert((a + b)[k] == c);
    }
    if b.contains(c) {
        let k = choose|k: int| 0 <= k < b.len() && #[trigger] b[k] == c;
        assert((a + b)[k + a.len()] == c);
    }
}

/// A sequence without `c` is free of the separator `c`.
pub proof fn lemma_free_of_char(s: Seq<char>, c: char)
    requires
        !s.contains(c),
    ensures
        free_of(s, is_char(c)),
{
    assert forall|i: int| 0 <= i < s.len() implies !is_char(c)(#[trigger] s[i]) by {
        if s[i] == c {
            assert(s.contains(c));
        }
    }
}

/// `str::split_once(c)`: the text before and after the first `c`.
pub open spec fn split_once(s: Seq<char>, c: char) -> Option<(Seq<char>, Seq<char>)> {
    match index_of(s, c) {
        Some(i) => Some((s.take(i), s.skip(i + 1))),
        None => None,
    }
}

/// Finds the first occurrence of `c`.
pub fn find_char(s: &[char], c: char) -> (r: Option<usize>)
    ensures
        r matches Some(i) ==> index_of(s@, c) == Some(i as int) && i < s.len() && s@[i as int]
            == c,
        r is None ==> index_of(s@, c) is None && !s@.contains(c),
{
    proof {
        lemma_index_of(s@, c);
    }
    let mut i: usize = 0;
    while i < s.len()
        invariant
            i <= s.len(),
            !s@.take(i as int).contains(c),
            index_of(s@, c) is None <==> !s@.contains(c),
            index_of(s@, c) matches Some(k) ==> 0 <= k < s@.len() && s@[k] == c && !s@.take(
                k,
            ).contains(c),
        decreases s.len() - i,
    {
        if s[i] == c {
            proof {
                assert(s@.contains(c));
                let k = index_of(s@, c).unwrap();
                if k < i {
                    assert(s@.take(i as int)[k] == c);
                } else if k > i {
                    assert(s@.take(k)[i as int] == c);
                }
            }
            return Some(i);
        }
        proof {
            if s@.take(i + 1).contains(c) {
                let k = choose|k: int| 0 <= k < i + 1 && #[trigger] s@.take(i + 1)[k] == c;
                assert(s@.take(i as int)[k] == c);
            }
        }
        i = i + 1;
    }
    assert(s@.take(s@.len() as int) =~= s@);
    None
}

/// Whether `c` occurs in `s`.
pub fn contains_char(s: &[char], c: char) -> (r: bool)
    ensures
        r == s@.contains(c),
{
    proof {
        lemma_index_of(s@, c);
    }
    find_char(s, c).is_some()
}

/// Whether `s` ends with `suffix`.
pub open spec fn ends_with(s: Seq<char>, suffix: Seq<char>) -> bool {
    s.len() >= suffix.len() && s.skip(s.len() - suffix.len()) == suffix
}

/// Whether `s` starts with `prefix`.
pub open spec fn starts_with(s: Seq<char>, prefix: Seq<char>) -> bool {
    s.len() >= prefix.len() && s.take(prefix.len() as int) == prefix
}

/// Whether `needle` occurs in `hay` as a contiguous run.
pub open spec fn contains_text(hay: Seq<char>, needle: Seq<char>) -> bool {
    exists|i: int|
        0 <= i && i + needle.len() <= hay.len() && #[trigger] hay.subrange(i, i + needle.len())
            == needle
}

/// Whether `needle` occurs in `hay` as a contiguous run.
pub fn contains_chars(hay: &[char], needle: &[char]) -> (r: bool)
    ensures
        r == contains_text(hay@, needle@),
{
    if needle.len() > hay.len() {
        return false;
    }
    let last = hay.len() - needle.len();
    let mut i: usize = 0;
    loop
        invariant
            last + needle.len() == hay.len(),
            i <= last,
            forall|k: int|
                0 <= k < i ==> #[trigger] hay@.subrange(k, k + needle@.len()) != needle@,
        ensures
            forall|k: int|
                0 <= k <= last ==> #[trigger] hay@.subrange(k, k + needle@.len()) != needle@,
        decreases last - i,
    {
        let window = slice_range(hay, i, i + needle.len());
        if chars_eq(&window, needle) {
            return true;
        }
        if i == last {
            break;
        }
        i = i + 1;
    }
    proof {
        if contains_text(hay@, needle@) {
            let k = choose|k: int|
                0 <= k && k + needle@.len() <= hay@.len() && #[trigger] hay@.subrange(
                    k,
                    k + needle@.len(),
                ) == needle@;
            assert(k <= last);
        }
    }
    false
}

/// ASCII lowercase of one character.
pub open spec fn lower_char(c: char) -> char {
    if 'A' <= c && c <= 'Z' {
        (((c as int) + 32) as u8) as char
    } else {
        c
    }
}

/// `str::to_ascii_lowercase`.
pub open spec fn ascii_lowercase(s: Seq<char>) -> Seq<char> {
    s.map_values(|c: char| lower_char(c))
}

/// ASCII-lowercases characters.
pub fn lowercase_chars(s: &[char]) -> (r: Vec<char>)
    ensures
        r@ == ascii_lowercase(s@),
{
    let mut r: Vec<char> = Vec::new();
    let mut i: usize = 0;
    while i < s.len()
        invariant
            i <= s.len(),
            r@ == ascii_lowercase(s@.take(i as int)),
        decreases s.len() - i,
    {
        let c = s[i];
        let l = if 'A' <= c && c <= 'Z' {
            ((c as u8) + 32) as char
        } else {
            c
        };
        r.push(l);
        i = i + 1;
        assert(r@ =~= ascii_lowercase(s@.take(i as int)));
    }
    assert(s@.take(s@.len() as int) =~= s@);
    r
}

/// Whether two character sequences are equal.
pub fn chars_eq(a: &[char], b: &[char]) -> (r: bool)
    ensures
        r == (a@ == b@),
{
    if a.len() != b.len() {
        return false;
    }
    let mut i: usize = 0;
    while i < a.len()
        invariant
            a@.len() == b@.len(),
            i <= a.len(),
            a@.take(i as int) == b@.take(i as int),
        decreases a.len() - i,
    {
        if a[i] != b[i] {
            return false;
        }
        i = i + 1;
        assert(a@.take(i as int) =~= a@.take(i - 1).push(a@[i - 1]));
        assert(b@.take(i as int) =~= b@.take(i - 1).push(b@[i - 1]));
    }
    assert(a@ =~= a@.take(a@.len() as int));
    assert(b@ =~= b@.take(b@.len() as int));
    true
}

/// Whether `s` ends with `suffix`.
pub fn ends_with_chars(s: &[char], suffix: &[char]) -> (r: bool)
    ensures
        r == ends_with(s@, suffix@),
{
    if s.len() < suffix.len() {
        return false;
    }
    let start = s.len() - suffix.len();
    let tail = slice_from(s, start);
    chars_eq(&tail, suffix)
}

/// Whether `s` starts with `prefix`.
pub fn starts_with_chars(s: &[char], prefix: &[char]) -> (r: bool)
    ensures
        r == starts_with(s@, prefix@),
{
    if s.len() < prefix.len() {
        return false;
    }
    let head = slice_range(s, 0, prefix.len());
    assert(s@.subrange(0, prefix@.len() as int) =~= s@.take(prefix@.len() as int));
    chars_eq(&head, prefix)
}

/// Copies `s[from..to]`.
pub fn slice_range(s: &[char], from: usize, to: usize) -> (r: Vec<char>)
    requires
        from <= to <= s@.len(),
    ensures
        r@ == s@.subrange(from as int, to as int),
{
    let mut r: Vec<char> = Vec::new();
    let mut i: usize = from;
    while i < to
        invariant
            from <= i <= to,
            to <= s@.len(),
            r@ == s@.subrange(from as int, i as int),
        decreases to - i,
    {
        r.push(s[i]);
        i = i + 1;
        assert(r@ =~= s@.subrange(from as int, i as int));
    }
    r
}

/// Copies `s[from..]`.
pub fn slice_from(s: &[char], from: usize) -> (r: Vec<char>)
    requires
        from <= s@.len(),
    ensures
        r@ == s@.skip(from as int),
{
    let r = slice_range(s, from, s.len());
    assert(s@.subrange(from as int, s@.len() as int) =~= s@.skip(from as int));
    r
}

// ------------------------------------------------------------------------
// Strings
// ------------------------------------------------------------------------

/// Copies the characters of `s` into a vector.
pub fn chars_of(s: &str) -> (v: Vec<char>)
    ensures
        v@ == s@,
{
    let n = s.unicode_len();
    let mut v: Vec<char> = Vec::new();
    let mut i: usize = 0;
    while i < n
        invariant
            n == s@.len(),
            i <= n,
            v@ == s@.take(i as int),
        decreases n - i,
    {
        v.push(s.get_char(i));
        i = i + 1;
        assert(v@ =~= s@.take(i as int));
    }
    assert(s@.take(n as int) =~= s@);
    v
}

/// Appends characters to a `String`.
pub fn push_chars(out: &mut String, s: &[char])
    ensures
        final(out)@ == old(out)@ + s@,
{
    let mut i: usize = 0;
    while i < s.len()
        invariant
            i <= s.len(),
            out@ == old(out)@ + s@.take(i as int),
        decreases s.len() - i,
    {
        out.push(s[i]);
        i = i + 1;
        assert(out@ =~= old(out)@ + s@.take(i as int));
    }
    assert(s@.take(s@.len() as int) =~= s@);
}

/// Builds a `String` from characters.
pub fn string_of(s: &[char]) -> (r: String)
    ensures
        r@ == s@,
{
    let mut r = String::new();
    push_chars(&mut r, s);
    assert(r@ =~= s@);
    r
}

/// `c` repeated `n` times.
pub open spec fn repeat_char(c: char, n: nat) -> Seq<char> {
    Seq::new(n, |i: int| c)
}

/// Appends `n` copies of `c`.
pub fn push_repeat(out: &mut String, c: char, n: usize)
    ensures
        final(out)@ == old(out)@ + repeat_char(c, n as nat),
{
    let mut i: usize = 0;
    while i < n
        invariant
            i <= n,
            out@ == old(out)@ + repeat_char(c, i as nat),
        decreases n - i,
    {
        out.push(c);
        i = i + 1;
        assert(out@ =~= old(out)@ + repeat_char(c, i as nat));
    }
}

// ------------------------------------------------------------------------
// Trimming
// ------------------------------------------------------------------------

/// `s` without leading characters that satisfy `p`.
pub open spec fn trim_start_where(s: Seq<char>, p: spec_fn(char) -> bool) -> Seq<char>
    decreases s.len(),
{
    if s.len() > 0 && p(s[0]) {
        trim_start_where(s.drop_first(), p)
    } else {
        s
    }
}

/// `s` without trailing characters that satisfy `p`.
pub open spec fn trim_end_where(s: Seq<char>, p: spec_fn(char) -> bool) -> Seq<char>
    decreases s.len(),
{
    if s.len() > 0 && p(s.last()) {
        trim_end_where(s.drop_last(), p)
    } else {
        s
    }
}

/// `s` without leading and trailing characters that satisfy `p`.
pub open spec fn trim_where(s: Seq<char>, p: spec_fn(char) -> bool) -> Seq<char> {
    trim_end_where(trim_start_where(s, p), p)
}

/// Unicode whitespace as `str::trim` removes it.
pub open spec fn is_space() -> spec_fn(char) -> bool {
    |c: char| unicode_whitespace(c)
}

/// `str::trim`.
pub open spec fn trim(s: Seq<char>) -> Seq<char> {
    trim_where(s, is_space())
}

proof fn lemma_trim_start_skip(s: Seq<char>, p: spec_fn(char) -> bool, i: int)
    requires
        0 <= i <= s.len(),
        forall|k: int| 0 <= k < i ==> p(#[trigger] s[k]),
    ensures
        trim_start_where(s, p) == trim_start_where(s.skip(i), p),
    decreases i,
{
    if i > 0 {
        assert(p(s[0]));
        lemma_trim_start_skip(s.drop_first(), p, i - 1);
        assert(s.drop_first().skip(i - 1) =~= s.skip(i));
    } else {
        assert(s.skip(0) =~= s);
    }
}

proof fn lemma_trim_end_take(s: Seq<char>, p: spec_fn(char) -> bool, j: int)
    requires
        0 <= j <= s.len(),
        forall|k: int| j <= k < s.len() ==> p(#[trigger] s[k]),
    ensures
        trim_end_where(s, p) == trim_end_where(s.take(j), p),
    decreases s.len() - j,
{
    if j < s.len() {
        assert(p(s[s.len() - 1]));
        lemma_trim_end_take(s.drop_last(), p, j);
        assert(s.drop_last().take(j) =~= s.take(j));
    } else {
        assert(s.take(j) =~= s);
    }
}

/// Trimming keeps only characters of the input.
pub proof fn lemma_trim_contains(s: Seq<char>, p: spec_fn(char) -> bool, c: char)
    ensures
        trim_where(s, p).contains(c) ==> s.contains(c),
{
    lemma_trim_start_contains(s, p, c);
    lemma_trim_end_contains(trim_start_where(s, p), p, c);
}

proof fn lemma_trim_start_contains(s: Seq<char>, p: spec_fn(char) -> bool, c: char)
    ensures
        trim_start_where(s, p).contains(c) ==> s.contains(c),
    decreases s.len(),
{
    if s.len() > 0 && p(s[0]) {
        lemma_trim_start_contains(s.drop_first(), p, c);
        if s.drop_first().contains(c) {
            let k = choose|k: int| 0 <= k < s.drop_first().len() && #[trigger] s.drop_first()[k]
                == c;
            assert(s[k + 1] == c);
        }
    }
}

proof fn lemma_trim_end_contains(s: Seq<char>, p: spec_fn(char) -> bool, c: char)
    ensures
        trim_end_where(s, p).contains(c) ==> s.contains(c),
    decreases s.len(),
{
    if s.len() > 0 && p(s.last()) {
        lemma_trim_end_contains(s.drop_last(), p, c);
        if s.drop_last().contains(c) {
            let k = choose|k: int| 0 <= k < s.drop_last().len() && #[trigger] s.drop_last()[k]
                == c;
            assert(s[k] == c);
        }
    }
}

/// Removes leading and trailing Unicode whitespace.
pub fn trim_chars(s: &[char]) -> (r: Vec<char>)
    ensures
        r@ == trim(s@),
{
    let mut i: usize = 0;
    while i < s.len() && char_is_whitespace(s[i])
        invariant
            i <= s.len(),
            forall|k: int| 0 <= k < i ==> is_space()(#[trigger] s@[k]),
        decreases s.len() - i,
    {
        i = i + 1;
    }
    proof {
        lemma_trim_start_skip(s@, is_space(), i as int);
    }
    let mut j: usize = s.len();
    while j > i && char_is_whitespace(s[j - 1])
        invariant
            i <= j <= s.len(),
            forall|k: int| j <= k < s.len() ==> is_space()(#[trigger] s@[k]),
        decreases j,
    {
        j = j - 1;
    }
    let r = slice_range(s, i, j);
    proof {
        let rest = s@.skip(i as int);
        assert(trim_start_where(rest, is_space()) == rest);
        assert forall|k: int| (j - i) <= k < rest.len() implies is_space()(#[trigger] rest[k]) by {
            assert(rest[k] == s@[k + i]);
        }
        lemma_trim_end_take(rest, is_space(), j - i);
        assert(rest.take(j - i) =~= s@.subrange(i as int, j as int));
        let t = rest.take(j - i);
        if t.len() > 0 {
            assert(t.last() == s@[j - 1]);
        }
    }
    r
}

/// Removes leading and trailing occurrences of `c`.
pub fn trim_char(s: &[char], c: char) -> (r: Vec<char>)
    ensures
        r@ == trim_where(s@, is_char(c)),
{
    let mut i: usize = 0;
    while i < s.len() && s[i] == c
        invariant
            i <= s.len(),
            forall|k: int| 0 <= k < i ==> is_char(c)(#[trigger] s@[k]),
        decreases s.len() - i,
    {
        i = i + 1;
    }
    proof {
        lemma_trim_start_skip(s@, is_char(c), i as int);
    }
    let mut j: usize = s.len();
    while j > i && s[j - 1] == c
        invariant
            i <= j <= s.len(),
            forall|k: int| j <= k < s.len() ==> is_char(c)(#[trigger] s@[k]),
        decreases j,
    {
        j = j - 1;
    }
    let r = slice_range(s, i, j);
    proof {
        let rest = s@.skip(i as int);
        assert(trim_start_where(rest, is_char(c)) == rest);
        assert forall|k: int| (j - i) <= k < rest.len() implies is_char(c)(#[trigger] rest[k]) by {
            assert(rest[k] == s@[k + i]);
        }
        lemma_trim_end_take(rest, is_char(c), j - i);
        assert(rest.take(j - i) =~= s@.subrange(i as int, j as int));
        let t = rest.take(j - i);
        if t.len() > 0 {
            assert(t.last() == s@[j - 1]);
        }
    }
    r
}

/// The names of a list of strings.
pub open spec fn names_view(v: Seq<String>) -> Seq<Seq<char>> {
    v.map_values(|s: String| s@)
}

/// The strings of a list other than `name`, in order.
pub open spec fn without(pkgs: Seq<Seq<char>>, name: Seq<char>) -> Seq<Seq<char>>
    decreases pkgs.len(),
{
    if pkgs.len() == 0 {
        Seq::empty()
    } else if pkgs.last() == name {
        without(pkgs.drop_last(), name)
    } else {
        without(pkgs.drop_last(), name).push(pkgs.last())
    }
}

/// The strings of a list other than `name`, in order.
pub fn strings_without(pkgs: &[String], name: &str) -> (r: Vec<String>)
    ensures
        names_view(r@) == without(names_view(pkgs@), name@),
{
    let ghost views = names_view(pkgs@);
    let mut r: Vec<String> = Vec::new();
    let mut i: usize = 0;
    let target = chars_of(name);
    assert(views.take(0) =~= Seq::<Seq<char>>::empty());
    while i < pkgs.len()
        invariant
            i <= pkgs@.len(),
            views == names_view(pkgs@),
            target@ == name@,
            names_view(r@) == without(views.take(i as int), name@),
        decreases pkgs.len() - i,
    {
        assert(views.take(i + 1).drop_last() =~= views.take(i as int));
        assert(views.take(i + 1).last() == pkgs@[i as int]@);
        let ghost before = names_view(r@);
        let p = chars_of(pkgs[i].as_str());
        if !chars_eq(&p, &target) {
            r.push(pkgs[i].clone());
            assert(names_view(r@) =~= before.push(pkgs@[i as int]@));
        }
        i = i + 1;
    }
    assert(views.take(pkgs@.len() as int) =~= views);
    r
}

} // verus!
