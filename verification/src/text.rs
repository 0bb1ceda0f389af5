//! Character-level helpers: whitespace, trimming and splitting.

use vstd::prelude::*;

verus! {

/// `String::push` appends one character to the end of the string.
pub assume_specification[ String::push ](s: &mut String, c: char)
    ensures
        final(s)@ == old(s)@.push(c),
;

/// Whether `c` is one of the 25 code points with the Unicode property
/// `White_Space`.
pub open spec fn is_whitespace_spec(c: char) -> bool {
    let code = c as u32;
    ||| 0x09 <= code <= 0x0d
    ||| code == 0x20
    ||| code == 0x85
    ||| code == 0xa0
    ||| code == 0x1680
    ||| 0x2000 <= code <= 0x200a
    ||| code == 0x2028
    ||| code == 0x2029
    ||| code == 0x202f
    ||| code == 0x205f
    ||| code == 0x3000
}

/// `s` without its leading whitespace.
pub open spec fn trim_start(s: Seq<char>) -> Seq<char>
    decreases s.len(),
{
    if s.len() > 0 && is_whitespace_spec(s[0]) {
        trim_start(s.drop_first())
    } else {
        s
    }
}

/// `s` without its trailing whitespace.
pub open spec fn trim_end(s: Seq<char>) -> Seq<char>
    decreases s.len(),
{
    if s.len() > 0 && is_whitespace_spec(s.last()) {
        trim_end(s.drop_last())
    } else {
        s
    }
}

/// `s` without its leading and trailing whitespace.
pub open spec fn trim(s: Seq<char>) -> Seq<char> {
    trim_end(trim_start(s))
}

/// The pieces of `s` between occurrences of `delimiter`, in order.
///
/// The empty sequence has one empty piece; a delimiter opens a new empty
/// piece; any other character extends the last piece.
pub open spec fn split_spec(s: Seq<char>, delimiter: char) -> Seq<Seq<char>>
    decreases s.len(),
{
    if s.len() == 0 {
        seq![Seq::empty()]
    } else {
        let before = split_spec(s.drop_last(), delimiter);
        if s.last() == delimiter {
            before.push(Seq::empty())
        } else {
            before.drop_last().push(before.last().push(s.last()))
        }
    }
}

/// `pieces` written one after another with `delimiter` between neighbours.
pub open spec fn join_spec(pieces: Seq<Seq<char>>, delimiter: char) -> Seq<char>
    decreases pieces.len(),
{
    if pieces.len() == 0 {
        Seq::empty()
    } else if pieces.len() == 1 {
        pieces[0]
    } else {
        join_spec(pieces.drop_last(), delimiter).push(delimiter) + pieces.last()
    }
}

/// The character sequences that a sequence of character vectors holds.
pub open spec fn pieces_view(pieces: Seq<Vec<char>>) -> Seq<Seq<char>> {
    Seq::new(pieces.len(), |i: int| pieces[i]@)
}

/// The character sequences that a sequence of strings holds.
pub open spec fn strings_view(strings: Seq<String>) -> Seq<Seq<char>> {
    Seq::new(strings.len(), |i: int| strings[i]@)
}

/// `trim_start` drops a prefix that is all whitespace, and what is left does
/// not start with whitespace.
pub proof fn lemma_trim_start(s: Seq<char>)
    ensures
        trim_start(s).len() <= s.len(),
        trim_start(s) == s.skip(s.len() - trim_start(s).len()),
        forall|j: int| 0 <= j < s.len() - trim_start(s).len() ==> is_whitespace_spec(s[j]),
        trim_start(s).len() > 0 ==> !is_whitespace_spec(trim_start(s)[0]),
    decreases s.len(),
{
    if s.len() > 0 && is_whitespace_spec(s[0]) {
        let tail = s.drop_first();
        lemma_trim_start(tail);
        let dropped = s.len() - trim_start(s).len();
        assert(tail.skip(dropped - 1) =~= s.skip(dropped));
        assert forall|j: int| 0 <= j < dropped implies is_whitespace_spec(s[j]) by {
            if j > 0 {
                assert(s[j] == tail[j - 1]);
            }
        }
    } else {
        assert(s.skip(0) =~= s);
    }
}

/// `trim_end` drops a suffix that is all whitespace, and what is left does
/// not end with whitespace.
pub proof fn lemma_trim_end(s: Seq<char>)
    ensures
        trim_end(s).len() <= s.len(),
        trim_end(s) == s.take(trim_end(s).len() as int),
        forall|j: int| trim_end(s).len() <= j < s.len() ==> is_whitespace_spec(s[j]),
        trim_end(s).len() > 0 ==> !is_whitespace_spec(trim_end(s).last()),
    decreases s.len(),
{
    if s.len() > 0 && is_whitespace_spec(s.last()) {
        let front = s.drop_last();
        lemma_trim_end(front);
        assert(front.take(trim_end(s).len() as int) =~= s.take(trim_end(s).len() as int));
        assert forall|j: int| trim_end(s).len() <= j < s.len() implies is_whitespace_spec(
            s[j],
        ) by {
            if j < front.len() {
                assert(s[j] == front[j]);
            }
        }
    } else {
        assert(s.take(s.len() as int) =~= s);
    }
}

/// Trimming cuts whitespace from both ends and nothing else: the result is
/// the part of `s` between its leading and its trailing whitespace, and it
/// neither starts nor ends with whitespace.
pub proof fn lemma_trim(s: Seq<char>)
    ensures
        ({
            let start = s.len() - trim_start(s).len();
            let end = start + trim(s).len();
            &&& 0 <= start <= end <= s.len()
            &&& trim(s) == s.subrange(start, end)
            &&& forall|j: int| 0 <= j < start ==> is_whitespace_spec(s[j])
            &&& forall|j: int| end <= j < s.len() ==> is_whitespace_spec(s[j])
            &&& start < end ==> !is_whitespace_spec(s[start]) && !is_whitespace_spec(s[end - 1])
        }),
{
    let rest = trim_start(s);
    let start = s.len() - rest.len();
    let end = start + trim(s).len();
    lemma_trim_start(s);
    lemma_trim_end(rest);
    assert(rest.take(trim(s).len() as int) =~= s.subrange(start, end));
    assert forall|j: int| end <= j < s.len() implies is_whitespace_spec(s[j]) by {
        assert(s[j] == rest[j - start]);
    }
    if start < end {
        assert(rest[0] == s[start]);
        assert(trim(s).last() == s[end - 1]);
    }
}

/// Splitting always yields at least one piece.
pub proof fn lemma_split_nonempty(s: Seq<char>, delimiter: char)
    ensures
        split_spec(s, delimiter).len() >= 1,
    decreases s.len(),
{
    if s.len() > 0 {
        lemma_split_nonempty(s.drop_last(), delimiter);
    }
}

/// Splitting loses nothing: no piece holds the delimiter, and joining the
/// pieces with the delimiter gives the input back.
pub proof fn lemma_split_join(s: Seq<char>, delimiter: char)
    ensures
        forall|i: int|
            0 <= i < split_spec(s, delimiter).len() ==> !(#[trigger] split_spec(
                s,
                delimiter,
            )[i]).contains(delimiter),
        join_spec(split_spec(s, delimiter), delimiter) == s,
    decreases s.len(),
{
    let pieces = split_spec(s, delimiter);
    if s.len() == 0 {
        assert(pieces[0] =~= Seq::<char>::empty());
    } else {
        let before = split_spec(s.drop_last(), delimiter);
        lemma_split_join(s.drop_last(), delimiter);
        lemma_split_nonempty(s.drop_last(), delimiter);
        if s.last() == delimiter {
            assert(pieces.drop_last() =~= before);
            assert(join_spec(pieces, delimiter) =~= s);
        } else {
            let grown = before.last().push(s.last());
            assert(pieces.last() == grown);
            assert(pieces.drop_last() =~= before.drop_last());
            assert forall|i: int| 0 <= i < pieces.len() implies !(#[trigger] pieces[i]).contains(
                delimiter,
            ) by {
                if i == pieces.len() - 1 {
                    if grown.contains(delimiter) {
                        let k = choose|k: int| 0 <= k < grown.len() && grown[k] == delimiter;
                        assert(before.last()[k] == delimiter);
                        assert(before.last().contains(delimiter));
                    }
                } else {
                    assert(pieces[i] == before[i]);
                }
            }
            assert(s =~= s.drop_last().push(s.last()));
            if before.len() == 1 {
                assert(pieces.len() == 1);
                assert(join_spec(pieces, delimiter) =~= s);
            } else {
                assert(pieces.len() == before.len());
                assert(join_spec(before, delimiter) == join_spec(
                    before.drop_last(),
                    delimiter,
                ).push(delimiter) + before.last());
                assert(join_spec(pieces, delimiter) =~= s);
            }
        }
    }
}

/// Whether `c` is whitespace.
pub fn is_whitespace(c: char) -> (result: bool)
    ensures
        result == is_whitespace_spec(c),
{
    let code: u32 = c as u32;
    (0x09 <= code && code <= 0x0d) || code == 0x20 || code == 0x85 || code == 0xa0 || code
        == 0x1680 || (0x2000 <= code && code <= 0x200a) || code == 0x2028 || code == 0x2029 || code
        == 0x202f || code == 0x205f || code == 0x3000
}

/// The characters of `text`, in order.
pub fn chars_of(text: &str) -> (chars: Vec<char>)
    ensures
        chars@ == text@,
{
    let mut chars: Vec<char> = Vec::new();
    for c in it: text.chars()
        invariant
            chars@ == it.seq().take(it.index() as int),
    {
        chars.push(c);
    }
    chars
}

/// The string made of `chars[from..to]`.
pub fn string_of(chars: &Vec<char>, from: usize, to: usize) -> (text: String)
    requires
        from <= to <= chars.len(),
    ensures
        text@ == chars@.subrange(from as int, to as int),
{
    let mut text = String::new();
    let mut i: usize = from;
    while i < to
        invariant
            from <= i <= to <= chars.len(),
            text@ == chars@.subrange(from as int, i as int),
        decreases to - i,
    {
        text.push(chars[i]);
        i += 1;
    }
    text
}

/// Whether `chars` spells `text`.
pub fn spells(chars: &Vec<char>, text: &str) -> (result: bool)
    ensures
        result == (chars@ == text@),
{
    let other = chars_of(text);
    if chars.len() != other.len() {
        return false;
    }
    let mut i: usize = 0;
    while i < chars.len()
        invariant
            i <= chars.len() == other.len(),
            other@ == text@,
            chars@.take(i as int) == other@.take(i as int),
        decreases chars.len() - i,
    {
        if chars[i] != other[i] {
            assert(chars@[i as int] != text@[i as int]);
            return false;
        }
        assert(chars@.take(i + 1) =~= chars@.take(i as int).push(chars@[i as int]));
        assert(other@.take(i + 1) =~= other@.take(i as int).push(other@[i as int]));
        i += 1;
    }
    assert(chars@ =~= chars@.take(i as int));
    assert(other@ =~= other@.take(i as int));
    true
}

proof fn lemma_trim_start_skip(s: Seq<char>, k: int)
    requires
        0 <= k <= s.len(),
        forall|j: int| 0 <= j < k ==> is_whitespace_spec(s[j]),
    ensures
        trim_start(s) == trim_start(s.skip(k)),
    decreases k,
{
    if k > 0 {
        assert(s.drop_first().skip(k - 1) =~= s.skip(k));
        lemma_trim_start_skip(s.drop_first(), k - 1);
    } else {
        assert(s.skip(0) =~= s);
    }
}

proof fn lemma_trim_end_take(s: Seq<char>, k: int)
    requires
        0 <= k <= s.len(),
        forall|j: int| k <= j < s.len() ==> is_whitespace_spec(s[j]),
    ensures
        trim_end(s) == trim_end(s.take(k)),
    decreases s.len() - k,
{
    if k < s.len() {
        assert(s.drop_last().take(k) =~= s.take(k));
        lemma_trim_end_take(s.drop_last(), k);
    } else {
        assert(s.take(k) =~= s);
    }
}

/// The bounds of `chars` without its leading and trailing whitespace: where
/// the leading whitespace ends, and where the trailing whitespace begins.
pub fn trim_bounds(chars: &Vec<char>) -> (bounds: (usize, usize))
    ensures
        bounds.0 <= bounds.1 <= chars.len(),
        bounds.0 == chars.len() - trim_start(chars@).len(),
        chars@.subrange(bounds.0 as int, bounds.1 as int) == trim(chars@),
{
    let mut start: usize = 0;
    while start < chars.len() && is_whitespace(chars[start])
        invariant
            start <= chars.len(),
            forall|j: int| 0 <= j < start ==> is_whitespace_spec(chars@[j]),
        decreases chars.len() - start,
    {
        start += 1;
    }
    let mut end: usize = chars.len();
    while end > start && is_whitespace(chars[end - 1])
        invariant
            start <= end <= chars.len(),
            forall|j: int| end <= j < chars.len() ==> is_whitespace_spec(chars@[j]),
        decreases end - start,
    {
        end -= 1;
    }
    proof {
        let rest = chars@.skip(start as int);
        lemma_trim_start_skip(chars@, start as int);
        assert(trim_start(chars@) == rest);
        lemma_trim_end_take(rest, end - start);
        assert(rest.take(end - start) =~= chars@.subrange(start as int, end as int));
    }
    (start, end)
}

/// The pieces of `chars[from..to]` between occurrences of `delimiter`.
pub fn split(chars: &Vec<char>, from: usize, to: usize, delimiter: char) -> (pieces: Vec<
    Vec<char>,
>)
    requires
        from <= to <= chars.len(),
    ensures
        pieces_view(pieces@) == split_spec(chars@.subrange(from as int, to as int), delimiter),
{
    let ghost whole = chars@.subrange(from as int, to as int);
    let mut pieces: Vec<Vec<char>> = Vec::new();
    let mut current: Vec<char> = Vec::new();
    let mut i: usize = from;
    while i < to
        invariant
            from <= i <= to <= chars.len(),
            whole == chars@.subrange(from as int, to as int),
            pieces_view(pieces@).push(current@) == split_spec(whole.take(i - from), delimiter),
        decreases to - i,
    {
        let c = chars[i];
        let ghost before = split_spec(whole.take(i - from), delimiter);
        proof {
            let next = whole.take(i + 1 - from);
            assert(next.drop_last() =~= whole.take(i - from));
            assert(next.last() == c);
            assert(before.last() == current@);
            assert(before.drop_last() =~= pieces_view(pieces@));
        }
        if c == delimiter {
            pieces.push(current);
            current = Vec::new();
            proof {
                assert(pieces_view(pieces@) =~= before);
            }
        } else {
            current.push(c);
        }
        i += 1;
    }
    pieces.push(current);
    proof {
        assert(whole.take(to - from) =~= whole);
        assert(pieces_view(pieces@) =~= split_spec(whole, delimiter));
    }
    pieces
}

/// A copy of `strings`.
pub fn clone_strings(strings: &Vec<String>) -> (copy: Vec<String>)
    ensures
        copy@ == strings@,
{
    let mut copy: Vec<String> = Vec::new();
    let mut i: usize = 0;
    while i < strings.len()
        invariant
            i <= strings.len(),
            copy@ == strings@.take(i as int),
        decreases strings.len() - i,
    {
        copy.push(strings[i].clone());
        assert(copy@ =~= strings@.take(i + 1));
        i += 1;
    }
    assert(copy@ =~= strings@);
    copy
}

} // verus!
