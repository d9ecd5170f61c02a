//! Characters, strings and the sequences of them that the rest of the crate
//! works on.

use vstd::prelude::*;

verus! {

/// The views of the elements of a sequence.
pub open spec fn views<T: View>(s: Seq<T>) -> Seq<T::V> {
    s.map_values(|x: T| x@)
}

/// The view of what an option holds.
pub open spec fn opt_view<T: View>(o: Option<T>) -> Option<T::V> {
    match o {
        Some(x) => Some(x@),
        None => None,
    }
}

pub broadcast proof fn lemma_views_len<T: View>(s: Seq<T>)
    ensures
        (#[trigger] views(s)).len() == s.len(),
{
}

pub broadcast proof fn lemma_views_index<T: View>(s: Seq<T>, i: int)
    requires
        0 <= i < s.len(),
    ensures
        (#[trigger] views(s)[i]) == s[i]@,
{
}

pub broadcast proof fn lemma_views_empty<T: View>()
    ensures
        #[trigger] views(Seq::<T>::empty()) == Seq::<T::V>::empty(),
{
    assert(views(Seq::<T>::empty()) =~= Seq::<T::V>::empty());
}

pub broadcast proof fn lemma_views_push<T: View>(s: Seq<T>, x: T)
    ensures
        #[trigger] views(s.push(x)) == views(s).push(x@),
{
    assert(views(s.push(x)) =~= views(s).push(x@));
}

pub broadcast proof fn lemma_views_subrange<T: View>(s: Seq<T>, i: int, j: int)
    requires
        0 <= i <= j <= s.len(),
    ensures
        #[trigger] views(s.subrange(i, j)) == views(s).subrange(i, j),
{
    assert(views(s.subrange(i, j)) =~= views(s).subrange(i, j));
}

/// How `views` distributes over building and slicing sequences.
pub broadcast group group_views {
    lemma_views_len,
    lemma_views_index,
    lemma_views_empty,
    lemma_views_push,
    lemma_views_subrange,
}

/// `String::push` appends one character.
pub assume_specification[ String::push ](s: &mut String, c: char)
    ensures
        final(s)@ == old(s)@.push(c),
;

/// The characters of `s`, in order.
pub fn chars_of(s: &str) -> (chars: Vec<char>)
    ensures
        chars@ == s@,
{
    let mut chars: Vec<char> = Vec::new();
    for c in it: s.chars()
        invariant
            chars@ == s@.take(it.index() as int),
            it.seq() == s@,
    {
        chars.push(c);
        proof {
            assert(s@.take(it.index() + 1) =~= s@.take(it.index() as int).push(c));
        }
    }
    proof {
        assert(s@.take(s@.len() as int) =~= s@);
    }
    chars
}

/// The string made of `chars`.
pub fn string_of(chars: &[char]) -> (s: String)
    ensures
        s@ == chars@,
{
    let mut s = String::new();
    for i in 0..chars.len()
        invariant
            s@ == chars@.take(i as int),
    {
        s.push(chars[i]);
        proof {
            assert(chars@.take(i + 1) =~= chars@.take(i as int).push(chars@[i as int]));
        }
    }
    proof {
        assert(chars@.take(chars@.len() as int) =~= chars@);
    }
    s
}

/// An owned copy of `chars`.
pub fn copy_chars(chars: &[char]) -> (copy: Vec<char>)
    ensures
        copy@ == chars@,
{
    vstd::slice::slice_to_vec(chars)
}

/// Whether two character slices hold the same characters.
pub fn same_chars(a: &[char], b: &[char]) -> (same: bool)
    ensures
        same == (a@ == b@),
{
    if a.len() != b.len() {
        return false;
    }
    for i in 0..a.len()
        invariant
            a@.len() == b@.len(),
            forall|k: int| 0 <= k < i ==> a@[k] == b@[k],
    {
        if a[i] != b[i] {
            return false;
        }
    }
    proof {
        assert(a@ =~= b@);
    }
    true
}

/// Whether `chars` spell the literal `text`.
pub fn spells(chars: &[char], text: &str) -> (same: bool)
    ensures
        same == (chars@ == text@),
{
    let other = chars_of(text);
    same_chars(chars, other.as_slice())
}

/// Whether `c` occurs in `chars`.
pub fn has_char(chars: &[char], c: char) -> (found: bool)
    ensures
        found == chars@.contains(c),
{
    for i in 0..chars.len()
        invariant
            forall|k: int| 0 <= k < i ==> chars@[k] != c,
    {
        if chars[i] == c {
            return true;
        }
    }
    false
}

/// The pieces of `s` between the occurrences of `sep`: a separator starts a
/// new piece, any other character extends the last one. There is always at
/// least one piece.
pub open spec fn split(s: Seq<char>, sep: char) -> Seq<Seq<char>>
    decreases s.len(),
{
    if s.len() == 0 {
        seq![Seq::empty()]
    } else {
        let pieces = split(s.drop_last(), sep);
        if s.last() == sep {
            pieces.push(Seq::empty())
        } else {
            pieces.drop_last().push(pieces.last().push(s.last()))
        }
    }
}

pub proof fn lemma_split_nonempty(s: Seq<char>, sep: char)
    ensures
        split(s, sep).len() >= 1,
    decreases s.len(),
{
    if s.len() > 0 {
        lemma_split_nonempty(s.drop_last(), sep);
    }
}

/// Splits `s` at every `sep`.
pub fn split_chars(s: &[char], sep: char) -> (pieces: Vec<Vec<char>>)
    ensures
        views(pieces@) == split(s@, sep),
{
    broadcast use group_views;

    let mut done: Vec<Vec<char>> = Vec::new();
    let mut last: Vec<char> = Vec::new();
    proof {
        assert(views(done@).push(last@) =~= split(s@.take(0), sep));
    }
    for i in 0..s.len()
        invariant
            views(done@).push(last@) == split(s@.take(i as int), sep),
    {
        broadcast use group_views;

        let c = s[i];
        proof {
            assert(s@.take(i + 1).drop_last() =~= s@.take(i as int));
            assert(views(done@).push(last@).drop_last() =~= views(done@));
        }
        if c == sep {
            done.push(last);
            last = Vec::new();
        } else {
            last.push(c);
        }
        proof {
            assert(views(done@).push(last@) =~= split(s@.take(i + 1), sep));
        }
    }
    proof {
        assert(s@.take(s@.len() as int) =~= s@);
    }
    done.push(last);
    done
}

/// The non-empty pieces of `s` between the occurrences of `sep`.
pub open spec fn nonempty_pieces(s: Seq<char>, sep: char) -> Seq<Seq<char>> {
    split(s, sep).filter(|p: Seq<char>| p.len() > 0)
}

/// Splits `s` at every `sep`, dropping empty pieces.
pub fn split_nonempty(s: &[char], sep: char) -> (pieces: Vec<Vec<char>>)
    ensures
        views(pieces@) == nonempty_pieces(s@, sep),
{
    broadcast use group_views;

    let all = split_chars(s, sep);
    let mut pieces: Vec<Vec<char>> = Vec::new();
    let ghost keep = |p: Seq<char>| p.len() > 0;
    let ghost parts = split(s@, sep);
    proof {
        reveal(Seq::filter);
        assert(parts.take(0).filter(keep) =~= Seq::empty());
    }
    for i in 0..all.len()
        invariant
            parts == views(all@),
            keep == (|p: Seq<char>| p.len() > 0),
            views(pieces@) == parts.take(i as int).filter(keep),
    {
        broadcast use group_views;

        proof {
            reveal(Seq::filter);
            assert(parts.take(i + 1).drop_last() =~= parts.take(i as int));
            assert(parts.take(i + 1).last() == all@[i as int]@);
        }
        if all[i].len() > 0 {
            pieces.push(copy_chars(all[i].as_slice()));
        }
    }
    proof {
        assert(parts.take(parts.len() as int) =~= parts);
    }
    pieces
}

/// `s` without `c` at its start, if it starts with `c`.
pub open spec fn without_prefix(s: Seq<char>, c: char) -> Seq<char> {
    if s.len() > 0 && s[0] == c {
        s.skip(1)
    } else {
        s
    }
}

/// `s` without `c` at its end, if it ends with `c`.
pub open spec fn without_suffix(s: Seq<char>, c: char) -> Seq<char> {
    if s.len() > 0 && s.last() == c {
        s.drop_last()
    } else {
        s
    }
}

/// The lines of a text: each is ended by a line feed, with or without a
/// carriage return before it; the last one may lack its ending.
pub open spec fn lines(s: Seq<char>) -> Seq<Seq<char>> {
    let pieces = split(s, '\n');
    let ended = pieces.drop_last().map_values(|line: Seq<char>| without_suffix(line, '\r'));
    if pieces.last().len() > 0 {
        ended.push(pieces.last())
    } else {
        ended
    }
}

/// The lines of `s`.
pub fn lines_of(s: &[char]) -> (found: Vec<Vec<char>>)
    ensures
        views(found@) == lines(s@),
{
    broadcast use group_views;

    let mut pieces = split_chars(s, '\n');
    let ghost all = views(pieces@);
    proof {
        lemma_split_nonempty(s@, '\n');
    }
    let last: Vec<char> = pieces.pop().unwrap();
    let ghost ended = all.drop_last().map_values(|line: Seq<char>| without_suffix(line, '\r'));
    proof {
        assert(views(pieces@) =~= all.drop_last());
    }
    let mut found: Vec<Vec<char>> = Vec::new();
    for i in 0..pieces.len()
        invariant
            views(pieces@) == all.drop_last(),
            ended == all.drop_last().map_values(|line: Seq<char>| without_suffix(line, '\r')),
            views(found@) == ended.take(i as int),
    {
        broadcast use group_views;

        let mut line = copy_chars(pieces[i].as_slice());
        proof {
            assert(all.drop_last()[i as int] == line@);
        }
        if line.len() > 0 && line[line.len() - 1] == '\r' {
            line.pop();
            proof {
                assert(line@ =~= all.drop_last()[i as int].drop_last());
            }
        }
        found.push(line);
        proof {
            assert(ended.take(i + 1) =~= ended.take(i as int).push(ended[i as int]));
        }
    }
    proof {
        assert(ended.take(ended.len() as int) =~= ended);
        assert(last@ == all.last());
    }
    if last.len() > 0 {
        found.push(last);
    }
    found
}

/// The parts with `sep` between each two of them.
pub open spec fn join(parts: Seq<Seq<char>>, sep: Seq<char>) -> Seq<char>
    decreases parts.len(),
{
    if parts.len() == 0 {
        Seq::empty()
    } else if parts.len() == 1 {
        parts[0]
    } else {
        join(parts.drop_last(), sep) + sep + parts.last()
    }
}

/// Joins `parts` with `sep` between each two of them.
pub fn join_strings(parts: &Vec<String>, sep: &str) -> (joined: String)
    ensures
        joined@ == join(views(parts@), sep@),
{
    broadcast use group_views;

    let ghost all = views(parts@);
    let mut joined = String::new();
    for i in 0..parts.len()
        invariant
            all == views(parts@),
            joined@ == join(all.take(i as int), sep@),
    {
        broadcast use group_views;

        proof {
            assert(all.take(i + 1).drop_last() =~= all.take(i as int));
        }
        if i > 0 {
            joined.append(sep);
        }
        joined.append(parts[i].as_str());
        proof {
            assert(joined@ =~= join(all.take(i + 1), sep@));
        }
    }
    proof {
        assert(all.take(all.len() as int) =~= all);
    }
    joined
}

/// A string as it stands in messages, in double quotes: what its `Debug`
/// form is.
pub uninterp spec fn debug_text(s: Seq<char>) -> Seq<char>;

/// `format!("{:?}")` of a string puts it in double quotes and escapes what
/// does not print. What it escapes is left to the name [`debug_text`].
#[verifier::external_body]
pub(crate) fn quoted(s: &str) -> (text: String)
    ensures
        text@ == debug_text(s@),
{
    format!("{:?}", s)
}

/// One decimal digit.
pub open spec fn digit(d: nat) -> char {
    if d == 0 {
        '0'
    } else if d == 1 {
        '1'
    } else if d == 2 {
        '2'
    } else if d == 3 {
        '3'
    } else if d == 4 {
        '4'
    } else if d == 5 {
        '5'
    } else if d == 6 {
        '6'
    } else if d == 7 {
        '7'
    } else if d == 8 {
        '8'
    } else {
        '9'
    }
}

/// A number in decimal notation.
pub open spec fn decimal(n: nat) -> Seq<char>
    decreases n,
{
    if n < 10 {
        seq![digit(n)]
    } else {
        decimal(n / 10).push(digit(n % 10))
    }
}

/// `n` in decimal notation.
pub fn decimal_text(n: u64) -> (text: String)
    ensures
        text@ == decimal(n as nat),
    decreases n,
{
    let d: u64 = n % 10;
    let mut text = if n < 10 {
        String::new()
    } else {
        decimal_text(n / 10)
    };
    text.push(
        match d {
            0 => '0',
            1 => '1',
            2 => '2',
            3 => '3',
            4 => '4',
            5 => '5',
            6 => '6',
            7 => '7',
            8 => '8',
            _ => '9',
        },
    );
    proof {
        if n < 10 {
            assert(text@ =~= seq![digit(n as nat)]);
        }
    }
    text
}

/// The number of characters of `s` before the first `c`, or all of them.
pub open spec fn count_before(s: Seq<char>, c: char) -> nat
    decreases s.len(),
{
    if s.len() == 0 || s[0] == c {
        0
    } else {
        1 + count_before(s.skip(1), c)
    }
}

pub proof fn lemma_count_before(s: Seq<char>, c: char)
    ensures
        count_before(s, c) <= s.len(),
        forall|k: int| 0 <= k < count_before(s, c) ==> s[k] != c,
        count_before(s, c) < s.len() ==> s[count_before(s, c) as int] == c,
    decreases s.len(),
{
    if s.len() > 0 && s[0] != c {
        lemma_count_before(s.skip(1), c);
        assert forall|k: int| 0 <= k < count_before(s, c) implies s[k] != c by {
            if k > 0 {
                assert(s.skip(1)[k - 1] == s[k]);
            }
        }
    }
}

pub proof fn lemma_count_before_is(s: Seq<char>, c: char, n: int)
    requires
        0 <= n <= s.len(),
        forall|k: int| 0 <= k < n ==> s[k] != c,
        n < s.len() ==> s[n] == c,
    ensures
        count_before(s, c) == n,
{
    lemma_count_before(s, c);
}

/// The number of characters before the first `c`.
pub fn find_char(s: &[char], c: char) -> (n: usize)
    ensures
        n == count_before(s@, c),
{
    for i in 0..s.len()
        invariant
            forall|k: int| 0 <= k < i ==> s@[k] != c,
    {
        if s[i] == c {
            proof {
                lemma_count_before_is(s@, c, i as int);
            }
            return i;
        }
    }
    proof {
        lemma_count_before_is(s@, c, s@.len() as int);
    }
    s.len()
}

/// Whether a character is white space: the ones that Unicode gives the
/// property `White_Space`.
pub open spec fn is_white(c: char) -> bool {
    ('\u{9}' <= c && c <= '\u{d}') || c == ' ' || c == '\u{85}' || c == '\u{a0}' || c == '\u{1680}'
        || ('\u{2000}' <= c && c <= '\u{200a}') || c == '\u{2028}' || c == '\u{2029}' || c
        == '\u{202f}' || c == '\u{205f}' || c == '\u{3000}'
}

/// `s` without the white space at its start.
pub open spec fn trimmed_start(s: Seq<char>) -> Seq<char>
    decreases s.len(),
{
    if s.len() > 0 && is_white(s[0]) {
        trimmed_start(s.skip(1))
    } else {
        s
    }
}

/// `s` without the white space at its end.
pub open spec fn trimmed_end(s: Seq<char>) -> Seq<char>
    decreases s.len(),
{
    if s.len() > 0 && is_white(s.last()) {
        trimmed_end(s.drop_last())
    } else {
        s
    }
}

/// `s` without the white space at its start and end.
pub open spec fn trimmed(s: Seq<char>) -> Seq<char> {
    trimmed_end(trimmed_start(s))
}

fn is_space(c: char) -> (yes: bool)
    ensures
        yes == is_white(c),
{
    ('\u{9}' <= c && c <= '\u{d}') || c == ' ' || c == '\u{85}' || c == '\u{a0}' || c == '\u{1680}'
        || ('\u{2000}' <= c && c <= '\u{200a}') || c == '\u{2028}' || c == '\u{2029}' || c
        == '\u{202f}' || c == '\u{205f}' || c == '\u{3000}'
}

/// `s` without the white space at its end.
pub fn trim_end(s: &[char]) -> (rest: &[char])
    ensures
        rest@ == trimmed_end(s@),
{
    let mut end: usize = s.len();
    proof {
        assert(s@.take(end as int) =~= s@);
    }
    while end > 0 && is_space(s[end - 1])
        invariant
            end <= s@.len(),
            trimmed_end(s@.take(end as int)) == trimmed_end(s@),
        decreases end,
    {
        proof {
            assert(s@.take(end as int).drop_last() =~= s@.take(end - 1));
        }
        end = end - 1;
    }
    vstd::slice::slice_subrange(s, 0, end)
}

/// `s` without the white space at its start and end.
pub fn trim(s: &str) -> (rest: String)
    ensures
        rest@ == trimmed(s@),
{
    let chars = chars_of(s);
    let mut start: usize = 0;
    proof {
        assert(s@.skip(0) =~= s@);
    }
    while start < chars.len() && is_space(chars[start])
        invariant
            start <= chars@.len(),
            chars@ == s@,
            trimmed_start(s@.skip(start as int)) == trimmed_start(s@),
        decreases chars@.len() - start,
    {
        proof {
            assert(s@.skip(start as int).skip(1) =~= s@.skip(start + 1));
        }
        start = start + 1;
    }
    let tail = vstd::slice::slice_subrange(chars.as_slice(), start, chars.len());
    proof {
        assert(tail@ =~= s@.skip(start as int));
    }
    string_of(trim_end(tail))
}

/// What follows `prefix` in `s`, if `s` starts with it.
pub open spec fn after_prefix(s: Seq<char>, prefix: Seq<char>) -> Option<Seq<char>> {
    if prefix.len() <= s.len() && s.take(prefix.len() as int) == prefix {
        Some(s.skip(prefix.len() as int))
    } else {
        None
    }
}

/// What follows `prefix` in `s`, if `s` starts with it.
pub fn strip_prefix(s: &str, prefix: &str) -> (rest: Option<String>)
    ensures
        opt_view(rest) == after_prefix(s@, prefix@),
{
    let chars = chars_of(s);
    let head = chars_of(prefix);
    if head.len() > chars.len() {
        return None;
    }
    let start = vstd::slice::slice_subrange(chars.as_slice(), 0, head.len());
    proof {
        assert(start@ =~= s@.take(prefix@.len() as int));
    }
    if !same_chars(start, head.as_slice()) {
        return None;
    }
    let rest = vstd::slice::slice_subrange(chars.as_slice(), head.len(), chars.len());
    proof {
        assert(rest@ =~= s@.skip(prefix@.len() as int));
    }
    Some(string_of(rest))
}

/// The text of an option's string.
pub open spec fn opt_text(o: Option<&str>) -> Option<Seq<char>> {
    match o {
        Some(text) => Some(text@),
        None => None,
    }
}

/// The bytes of an option's byte string.
pub open spec fn opt_bytes(o: Option<&[u8]>) -> Option<Seq<u8>> {
    match o {
        Some(bytes) => Some(bytes@),
        None => None,
    }
}

// ---------------------------------------------------------------------------
// What holds of every text
// ---------------------------------------------------------------------------
/// The white space that is trimmed: what Unicode counts as such.
pub proof fn white_space_is_that_of_unicode(c: char)
    ensures
        is_white(c) <==> {
            ||| c == ' ' || c == '\t' || c == '\n' || c == '\u{b}' || c == '\u{c}' || c == '\r'
            ||| c == '\u{85}' || c == '\u{a0}' || c == '\u{1680}'
            ||| '\u{2000}' <= c <= '\u{200a}'
            ||| c == '\u{2028}' || c == '\u{2029}' || c == '\u{202f}' || c == '\u{205f}'
            ||| c == '\u{3000}'
        },
{
}

/// Whether a text is white space only.
pub open spec fn all_white(s: Seq<char>) -> bool {
    forall|k: int| 0 <= k < s.len() ==> is_white(#[trigger] s[k])
}

proof fn lemma_trimmed_start(before: Seq<char>, rest: Seq<char>)
    requires
        all_white(before),
        rest.len() > 0 ==> !is_white(rest[0]),
    ensures
        trimmed_start(before + rest) == rest,
    decreases before.len(),
{
    let whole = before + rest;
    if before.len() == 0 {
        assert(whole =~= rest);
    } else {
        let tail = before.skip(1);
        assert(is_white(before[0]));
        assert(whole.skip(1) =~= tail + rest);
        assert forall|k: int| 0 <= k < tail.len() implies is_white(#[trigger] tail[k]) by {
            assert(tail[k] == before[k + 1]);
        }
        lemma_trimmed_start(tail, rest);
    }
}

/// Trimming at the end removes the white space there and nothing else.
pub proof fn trimming_the_end_removes_white_space_there(body: Seq<char>, after: Seq<char>)
    requires
        all_white(after),
        body.len() > 0 ==> !is_white(body.last()),
    ensures
        trimmed_end(body + after) == body,
    decreases after.len(),
{
    let whole = body + after;
    if after.len() == 0 {
        assert(whole =~= body);
    } else {
        let init = after.drop_last();
        assert(is_white(after[after.len() - 1]));
        assert(whole.drop_last() =~= body + init);
        assert forall|k: int| 0 <= k < init.len() implies is_white(#[trigger] init[k]) by {
            assert(init[k] == after[k]);
        }
        trimming_the_end_removes_white_space_there(body, init);
    }
}

/// Trimming removes the white space before and behind a text and nothing
/// else.
pub proof fn trimming_removes_white_space_around(
    before: Seq<char>,
    body: Seq<char>,
    after: Seq<char>,
)
    requires
        all_white(before),
        all_white(after),
        body.len() > 0 ==> !is_white(body[0]) && !is_white(body.last()),
        body.len() == 0 ==> after.len() == 0,
    ensures
        trimmed(before + body + after) == body,
{
    assert(before + body + after =~= before + (body + after));
    lemma_trimmed_start(before, body + after);
    trimming_the_end_removes_white_space_there(body, after);
}

/// Joining the pieces of a text gives the text.
pub proof fn joining_undoes_splitting(s: Seq<char>, sep: char)
    ensures
        join(split(s, sep), seq![sep]) == s,
    decreases s.len(),
{
    let pieces = split(s, sep);
    if s.len() == 0 {
        assert(s =~= Seq::empty());
    } else {
        let init = split(s.drop_last(), sep);
        lemma_split_nonempty(s.drop_last(), sep);
        joining_undoes_splitting(s.drop_last(), sep);
        if s.last() == sep {
            assert(pieces.drop_last() =~= init);
            assert(join(pieces, seq![sep]) =~= s);
        } else {
            assert(pieces.drop_last() =~= init.drop_last());
            assert(pieces.last() == init.last().push(s.last()));
            assert(s =~= s.drop_last().push(s.last()));
            if init.len() > 1 {
                let head = join(init.drop_last(), seq![sep]);
                assert(s.drop_last() == head + seq![sep] + init.last());
                assert(join(pieces, seq![sep]) == head + seq![sep] + pieces.last());
            }
            assert(join(pieces, seq![sep]) =~= s);
        }
    }
}

/// A text that starts with a prefix is the prefix and what follows it.
pub proof fn prefixes_are_stripped_once(s: Seq<char>, prefix: Seq<char>, rest: Seq<char>)
    ensures
        after_prefix(prefix + rest, prefix) == Some(rest),
        after_prefix(s, prefix) matches Some(r) ==> s == prefix + r,
{
    assert((prefix + rest).take(prefix.len() as int) =~= prefix);
    assert((prefix + rest).skip(prefix.len() as int) =~= rest);
    if let Some(r) = after_prefix(s, prefix) {
        assert(s =~= prefix + r);
    }
}

/// A character is stripped from the start and the end of a text if it stands
/// there, once, and otherwise nothing is.
pub proof fn characters_are_stripped_once(s: Seq<char>, c: char, d: char)
    ensures
        without_prefix(seq![c] + s, c) == s,
        without_suffix(s.push(c), c) == s,
        c != d ==> without_prefix(seq![d] + s, c) == seq![d] + s,
        c != d ==> without_suffix(s.push(d), c) == s.push(d),
{
    assert((seq![c] + s).skip(1) =~= s);
    assert(s.push(c).drop_last() =~= s);
}

/// A number in decimal notation ends with its last digit, and the digits
/// before it are those of a tenth of it.
pub proof fn decimal_notation_goes_digit_by_digit(n: nat, d: nat)
    requires
        d < 10,
    ensures
        digit(d) as u32 == '0' as u32 + d,
        decimal(d) == seq![digit(d)],
        n > 0 ==> decimal(n * 10 + d) == decimal(n).push(digit(d)),
{
    if n > 0 {
        assert((n * 10 + d) / 10 == n);
        assert((n * 10 + d) % 10 == d);
    }
}

/// What is given as an option is taken as it is.
pub proof fn options_are_taken_as_they_are(text: &str, bytes: &[u8])
    ensures
        opt_text(Some(text)) == Some(text@),
        opt_text(None) is None,
        opt_bytes(Some(bytes)) == Some(bytes@),
        opt_bytes(None) is None,
{
}

} // verus!
